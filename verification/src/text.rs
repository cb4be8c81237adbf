//! Text: the operations on strings that settings are read with.

use vstd::prelude::*;
use vstd::string::StrSliceExecFns;

verus! {

/// The string that some bytes are in UTF-8, where they are UTF-8 at all.
///
/// Calls `String::from_utf8` of std. Of it the contract claims that it succeeds exactly on valid
/// UTF-8, and that the string then consists of the characters that the bytes encode.
#[verifier::external_body]
pub(crate) fn string_from_utf8(bytes: Vec<u8>) -> (r: Option<String>)
    ensures
        r is Some <==> vstd::utf8::valid_utf8(bytes@),
        r matches Some(s) ==> s@ == vstd::utf8::decode_utf8(bytes@),
{
    String::from_utf8(bytes).ok()
}

/// Whether a character is white space: those with the `White_Space` property of Unicode.
pub open spec fn is_space(c: char) -> bool {
    let n = c as int;
    ||| 0x9 <= n <= 0xd
    ||| n == 0x20
    ||| n == 0x85
    ||| n == 0xa0
    ||| n == 0x1680
    ||| 0x2000 <= n <= 0x200a
    ||| n == 0x2028
    ||| n == 0x2029
    ||| n == 0x202f
    ||| n == 0x205f
    ||| n == 0x3000
}

/// Whether a character is white space.
fn space(c: char) -> (r: bool)
    ensures
        r == is_space(c),
{
    let n: u32 = c as u32;
    (0x9 <= n && n <= 0xd) || n == 0x20 || n == 0x85 || n == 0xa0 || n == 0x1680 || (0x2000 <= n
        && n <= 0x200a) || n == 0x2028 || n == 0x2029 || n == 0x202f || n == 0x205f || n == 0x3000
}

/// A text without the white space that it starts with.
pub open spec fn trim_start(s: Seq<char>) -> Seq<char>
    decreases s.len(),
{
    if s.len() > 0 && is_space(s[0]) {
        trim_start(s.drop_first())
    } else {
        s
    }
}

/// A text without the white space that it ends with.
pub open spec fn trim_end(s: Seq<char>) -> Seq<char>
    decreases s.len(),
{
    if s.len() > 0 && is_space(s.last()) {
        trim_end(s.drop_last())
    } else {
        s
    }
}

/// A text without the white space around it.
pub open spec fn trimmed(s: Seq<char>) -> Seq<char> {
    trim_end(trim_start(s))
}

/// The pieces that the separators in a text leave, in order: one more than there are separators.
pub open spec fn pieces(s: Seq<char>, separator: char) -> Seq<Seq<char>>
    decreases s.len(),
{
    if s.len() == 0 {
        seq![s]
    } else {
        let before = pieces(s.drop_last(), separator);
        if s.last() == separator {
            before.push(Seq::empty())
        } else {
            before.drop_last().push(before.last().push(s.last()))
        }
    }
}

/// Where a character first occurs in a text, from a position on; the length of the text if it
/// does not.
pub open spec fn first_at(s: Seq<char>, c: char, from: int) -> int
    decreases s.len() - from,
{
    if from < 0 || from >= s.len() {
        s.len() as int
    } else if s[from] == c {
        from
    } else {
        first_at(s, c, from + 1)
    }
}

/// The characters of a text.
pub fn chars_of(s: &str) -> (r: Vec<char>)
    ensures
        r@ == s@,
{
    let mut out: Vec<char> = Vec::new();
    for c in it: s.chars()
        invariant
            out@ == it.seq().take(it.index() as int),
            it.seq() == s@,
    {
        out.push(c);
    }
    assert(out@ =~= s@);
    out
}

/// The text without the white space around it.
pub fn trim(s: &str) -> (r: &str)
    ensures
        r@ == trimmed(s@),
{
    let chars = chars_of(s);
    let mut from: usize = 0;
    assert(s@.skip(0) =~= s@);
    while from < chars.len() && space(chars[from])
        invariant
            from <= chars.len(),
            chars@ == s@,
            trim_start(s@) == trim_start(s@.skip(from as int)),
        decreases chars.len() - from,
    {
        assert(s@.skip(from as int).drop_first() =~= s@.skip(from + 1));
        from = from + 1;
    }
    let mut to: usize = chars.len();
    assert(s@.subrange(from as int, to as int) =~= s@.skip(from as int));
    while to > from && space(chars[to - 1])
        invariant
            from <= to <= chars.len(),
            chars@ == s@,
            trim_end(s@.subrange(from as int, to as int)) == trim_end(s@.skip(from as int)),
        decreases to,
    {
        assert(s@.subrange(from as int, to as int).drop_last() =~= s@.subrange(
            from as int,
            to - 1,
        ));
        to = to - 1;
    }
    s.substring_char(from, to)
}

/// What some string slices hold.
pub open spec fn texts(v: Seq<&str>) -> Seq<Seq<char>> {
    v.map_values(|t: &str| t@)
}

/// What some strings hold.
pub open spec fn strings(v: Seq<String>) -> Seq<Seq<char>> {
    v.map_values(|t: String| t@)
}

/// The pieces that the separators in a text leave.
pub fn split(s: &str, separator: char) -> (r: Vec<&str>)
    ensures
        texts(r@) == pieces(s@, separator),
{
    let chars = chars_of(s);
    let mut out: Vec<&str> = Vec::new();
    let mut start: usize = 0;
    let mut i: usize = 0;
    assert(s@.take(0) =~= Seq::<char>::empty());
    assert(texts(out@).push(s@.subrange(0, 0)) =~= pieces(s@.take(0), separator));
    while i < chars.len()
        invariant
            start <= i <= chars.len(),
            chars@ == s@,
            texts(out@).push(s@.subrange(start as int, i as int)) == pieces(
                s@.take(i as int),
                separator,
            ),
        decreases chars.len() - i,
    {
        let ghost before = texts(out@).push(s@.subrange(start as int, i as int));
        proof {
            let now = s@.take(i + 1);
            assert(now.drop_last() =~= s@.take(i as int));
            assert(now.last() == chars@[i as int]);
        }
        if chars[i] == separator {
            let piece = s.substring_char(start, i);
            out.push(piece);
            assert(texts(out@) =~= before);
            start = i + 1;
            assert(s@.subrange(start as int, i + 1) =~= Seq::<char>::empty());
        } else {
            assert(before.drop_last() =~= texts(out@));
            assert(s@.subrange(start as int, i as int).push(chars@[i as int]) =~= s@.subrange(
                start as int,
                i + 1,
            ));
        }
        i = i + 1;
    }
    let ghost before = texts(out@);
    let piece = s.substring_char(start, chars.len());
    out.push(piece);
    assert(texts(out@) =~= before.push(s@.subrange(start as int, s@.len() as int)));
    assert(s@.take(s@.len() as int) =~= s@);
    out
}

/// Where a character first occurs in a text, from a position on; the length of the text if it
/// does not.
pub fn find_from(chars: &Vec<char>, c: char, from: usize) -> (r: usize)
    ensures
        r == first_at(chars@, c, from as int),
        r <= chars@.len(),
        from <= chars@.len() ==> from <= r,
        r < chars@.len() ==> chars@[r as int] == c,
        forall|k: int| from <= k < r ==> chars@[k] != c,
{
    let mut i: usize = from;
    while i < chars.len() && chars[i] != c
        invariant
            from <= i,
            from <= chars@.len() ==> i <= chars@.len(),
            first_at(chars@, c, from as int) == first_at(chars@, c, i as int),
            forall|k: int| from <= k < i ==> chars@[k] != c,
        decreases chars.len() - i,
    {
        i = i + 1;
    }
    if i < chars.len() {
        i
    } else {
        chars.len()
    }
}

/// The value of a decimal digit.
pub open spec fn digit_value(c: char) -> Option<nat> {
    if '0' <= c <= '9' {
        Some((c as int - '0' as int) as nat)
    } else {
        None
    }
}

/// Whether a text consists of decimal digits.
pub open spec fn all_digits(s: Seq<char>) -> bool {
    forall|i: int| 0 <= i < s.len() ==> digit_value(#[trigger] s[i]) is Some
}

/// The number that decimal digits stand for.
pub open spec fn number_of(s: Seq<char>) -> nat
    decreases s.len(),
{
    if s.len() == 0 {
        0
    } else {
        number_of(s.drop_last()) * 10 + digit_value(s.last()).unwrap_or(0)
    }
}

/// The number that a text stands for, if it is at most `max`: one or more decimal digits, with or
/// without a `+` before them.
pub open spec fn decimal(s: Seq<char>, max: nat) -> Option<nat> {
    let digits = if s.len() > 0 && s[0] == '+' {
        s.drop_first()
    } else {
        s
    };
    if digits.len() > 0 && all_digits(digits) && number_of(digits) <= max {
        Some(number_of(digits))
    } else {
        None
    }
}

/// A number does not get smaller when digits are added to it.
proof fn lemma_number_grows(s: Seq<char>, n: int)
    requires
        0 <= n <= s.len(),
    ensures
        number_of(s.take(n)) <= number_of(s),
    decreases s.len(),
{
    if n == s.len() {
        assert(s.take(n) =~= s);
    } else {
        assert(s.drop_last().take(n) =~= s.take(n));
        lemma_number_grows(s.drop_last(), n);
    }
}

/// The number that a text stands for, if it is at most `max`.
pub fn parse_decimal(s: &str, max: u64) -> (r: Option<u64>)
    ensures
        r is Some <==> decimal(s@, max as nat) is Some,
        r matches Some(n) ==> decimal(s@, max as nat) == Some(n as nat),
{
    let chars = chars_of(s);
    let start: usize = if chars.len() > 0 && chars[0] == '+' {
        1
    } else {
        0
    };
    let ghost digits = s@.skip(start as int);
    assert(start == 1 ==> digits =~= s@.drop_first());
    assert(start == 0 ==> digits =~= s@);
    if start == chars.len() {
        return None;
    }
    let mut value: u64 = 0;
    let mut i: usize = start;
    assert(digits.take(0) =~= Seq::<char>::empty());
    while i < chars.len()
        invariant
            start <= i <= chars.len(),
            start <= 1,
            chars@ == s@,
            digits == s@.skip(start as int),
            all_digits(digits.take(i - start)),
            value == number_of(digits.take(i - start)),
            value <= max,
            digits.len() > 0,
            digits == (if s@.len() > 0 && s@[0] == '+' {
                s@.drop_first()
            } else {
                s@
            }),
        decreases chars.len() - i,
    {
        let c: char = chars[i];
        let ghost n = i - start;
        proof {
            assert(digits.take(n + 1).drop_last() =~= digits.take(n));
            assert(digits[n] == c);
            assert(digits.take(n + 1).last() == c);
            lemma_number_grows(digits, n + 1);
        }
        if c < '0' || c > '9' {
            assert(digit_value(digits[n]) is None);
            return None;
        }
        let d: u64 = (c as u32 - '0' as u32) as u64;
        assert(digit_value(c) == Some(d as nat));
        match value.checked_mul(10) {
            None => {
                return None;
            },
            Some(tens) => {
                match tens.checked_add(d) {
                    None => {
                        return None;
                    },
                    Some(sum) => {
                        if sum > max {
                            return None;
                        }
                        value = sum;
                    },
                }
            },
        }
        assert forall|k: int| 0 <= k < n + 1 implies digit_value(
            #[trigger] digits.take(n + 1)[k],
        ) is Some by {
            if k < n {
                assert(digits.take(n)[k] == digits.take(n + 1)[k]);
            }
        }
        i = i + 1;
    }
    assert(digits.take(i - start) =~= digits);
    Some(value)
}

/// A character with upper case letters of ASCII turned into lower case ones.
pub open spec fn lower(c: char) -> int {
    if 'A' <= c <= 'Z' {
        c as int + 32
    } else {
        c as int
    }
}

/// Whether a setting says yes: `true` in upper or lower case letters, or `1`.
pub open spec fn says_true(s: Seq<char>) -> bool {
    ||| s == seq!['1']
    ||| s.len() == 4 && lower(s[0]) == 't' as int && lower(s[1]) == 'r' as int && lower(s[2])
        == 'u' as int && lower(s[3]) == 'e' as int
}

/// Whether a setting says yes.
pub fn is_true(s: &str) -> (r: bool)
    ensures
        r == says_true(s@),
{
    let chars = chars_of(s);
    if chars.len() == 1 {
        let one: bool = chars[0] == '1';
        assert(one ==> s@ =~= seq!['1']);
        one
    } else if chars.len() == 4 {
        (chars[0] == 't' || chars[0] == 'T') && (chars[1] == 'r' || chars[1] == 'R') && (chars[2]
            == 'u' || chars[2] == 'U') && (chars[3] == 'e' || chars[3] == 'E')
    } else {
        false
    }
}

/// The pieces that are more than white space, trimmed, in order.
pub open spec fn non_blank(parts: Seq<Seq<char>>) -> Seq<Seq<char>>
    decreases parts.len(),
{
    if parts.len() == 0 {
        Seq::empty()
    } else {
        let front = non_blank(parts.drop_last());
        let item = trimmed(parts.last());
        if item.len() == 0 {
            front
        } else {
            front.push(item)
        }
    }
}

/// The items of a list between commas: trimmed, and without those that are empty.
pub open spec fn list_items(s: Seq<char>) -> Seq<Seq<char>> {
    non_blank(pieces(s, ','))
}

/// The items of a list between commas.
pub fn split_list(s: &str) -> (r: Vec<String>)
    ensures
        strings(r@) == list_items(s@),
{
    let parts = split(s, ',');
    let ghost all = texts(parts@);
    let mut out: Vec<String> = Vec::new();
    let mut i: usize = 0;
    assert(all.take(0) =~= Seq::<Seq<char>>::empty());
    assert(strings(out@) =~= Seq::<Seq<char>>::empty());
    while i < parts.len()
        invariant
            i <= parts@.len(),
            all == texts(parts@),
            strings(out@) == non_blank(all.take(i as int)),
        decreases parts@.len() - i,
    {
        let ghost before = strings(out@);
        assert(all.take(i + 1).drop_last() =~= all.take(i as int));
        assert(all.take(i + 1).last() == parts@[i as int]@);
        let item = trim(parts[i]);
        if !item.is_empty() {
            out.push(item.to_owned());
            assert(strings(out@) =~= before.push(item@));
        }
        i = i + 1;
    }
    assert(all.take(i as int) =~= all);
    out
}

/// A text has at least one piece.
proof fn lemma_some_piece(s: Seq<char>, separator: char)
    ensures
        pieces(s, separator).len() > 0,
    decreases s.len(),
{
    if s.len() > 0 {
        lemma_some_piece(s.drop_last(), separator);
    }
}

/// A separator between two texts keeps their pieces apart.
pub proof fn law_pieces_of_two(a: Seq<char>, b: Seq<char>, separator: char)
    ensures
        pieces(a.push(separator) + b, separator) == pieces(a, separator) + pieces(b, separator),
    decreases b.len(),
{
    let both = a.push(separator) + b;
    if b.len() == 0 {
        assert(both.drop_last() =~= a);
        assert(both.last() == separator);
        assert(b =~= Seq::<char>::empty());
        assert(pieces(both, separator) =~= pieces(a, separator) + pieces(b, separator));
    } else {
        let front = b.drop_last();
        law_pieces_of_two(a, front, separator);
        lemma_some_piece(front, separator);
        assert(both.drop_last() =~= a.push(separator) + front);
        assert(both.last() == b.last());
        let x = pieces(a, separator);
        let y = pieces(front, separator);
        assert((x + y).last() == y.last());
        assert((x + y).drop_last() =~= x + y.drop_last());
        assert(pieces(both, separator) =~= x + pieces(b, separator));
    }
}

/// The pieces of a text put together again, with the separator between them.
pub open spec fn put_together(parts: Seq<Seq<char>>, separator: char) -> Seq<char>
    decreases parts.len(),
{
    if parts.len() == 0 {
        Seq::empty()
    } else if parts.len() == 1 {
        parts[0]
    } else {
        put_together(parts.drop_last(), separator).push(separator) + parts.last()
    }
}

/// Splitting loses nothing, and leaves no separator in any piece.
pub proof fn law_pieces_put_together(s: Seq<char>, separator: char)
    ensures
        put_together(pieces(s, separator), separator) == s,
        forall|i: int|
            0 <= i < pieces(s, separator).len() ==> !(#[trigger] pieces(s, separator)[i]).contains(
                separator,
            ),
    decreases s.len(),
{
    let parts = pieces(s, separator);
    if s.len() > 0 {
        let front = s.drop_last();
        let before = pieces(front, separator);
        law_pieces_put_together(front, separator);
        lemma_some_piece(front, separator);
        if s.last() == separator {
            assert(parts.drop_last() =~= before);
            assert(put_together(parts, separator) =~= s);
            assert forall|i: int| 0 <= i < parts.len() implies !(#[trigger] parts[i]).contains(
                separator,
            ) by {
                if i < before.len() {
                    assert(parts[i] == before[i]);
                }
            }
        } else {
            assert(parts.drop_last() =~= before.drop_last());
            assert(parts.last() == before.last().push(s.last()));
            if before.len() == 1 {
                assert(put_together(parts, separator) =~= s);
            } else {
                assert(put_together(before, separator) == put_together(
                    before.drop_last(),
                    separator,
                ).push(separator) + before.last());
                assert(put_together(parts, separator) =~= put_together(before, separator).push(
                    s.last(),
                ));
                assert(put_together(parts, separator) =~= s);
            }
            assert forall|i: int| 0 <= i < parts.len() implies !(#[trigger] parts[i]).contains(
                separator,
            ) by {
                if i < before.len() - 1 {
                    assert(parts[i] == before[i]);
                } else {
                    let old_piece = before.last();
                    assert(!before[before.len() - 1].contains(separator));
                    assert forall|k: int| 0 <= k < parts[i].len() implies parts[i][k]
                        != separator by {
                        if k < old_piece.len() {
                            assert(parts[i][k] == old_piece[k]);
                        }
                    }
                }
            }
        }
    } else {
        assert(parts =~= seq![s]);
    }
}

/// The pieces that are not blank of two rows of pieces are those of the first and then those of the
/// second.
proof fn lemma_non_blank_of_two(a: Seq<Seq<char>>, b: Seq<Seq<char>>)
    ensures
        non_blank(a + b) == non_blank(a) + non_blank(b),
    decreases b.len(),
{
    if b.len() == 0 {
        assert(a + b =~= a);
        assert(non_blank(a + b) =~= non_blank(a) + non_blank(b));
    } else {
        lemma_non_blank_of_two(a, b.drop_last());
        assert((a + b).drop_last() =~= a + b.drop_last());
        assert((a + b).last() == b.last());
        assert(non_blank(a + b) =~= non_blank(a) + non_blank(b));
    }
}

/// Two lists with a comma between them are one list with the items of both.
pub proof fn law_comma_joins_lists(a: Seq<char>, b: Seq<char>)
    ensures
        list_items(a.push(',') + b) == list_items(a) + list_items(b),
{
    law_pieces_of_two(a, b, ',');
    lemma_non_blank_of_two(pieces(a, ','), pieces(b, ','));
}

} // verus!
