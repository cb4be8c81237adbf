//! Which texts are IPv6 addresses, and which addresses they are.

use vstd::prelude::*;
use crate::addr::u16_bytes;
use crate::digits::{is_numeral, lemma_digits_are_numeral, lemma_numeral_digits, value};
use crate::ipv6_text::{gap_at, group_number, group_octets, hex_number, hex_value, ipv4_octets};
use crate::ipv6_text::{ipv6_octets, octet_number, side_octets};
use crate::text::{all_digits, digit_value, law_pieces_put_together, pieces, put_together};
use crate::written::{all_plain, lemma_gap_at, lemma_parts_tidy, lemma_pieces_of_parts, plain, tidy};

verus! {

/// Whether a character is the hexadecimal digit of a value, a letter in either case.
pub open spec fn is_hex_digit(c: char, d: nat) -> bool {
    ||| d < 10 && c as int == '0' as int + d
    ||| 10 <= d < 16 && (c as int == 'a' as int + d - 10 || c as int == 'A' as int + d - 10)
}

/// Whether characters are hexadecimal digits.
pub open spec fn spells_hex(s: Seq<char>, digits: Seq<nat>) -> bool {
    &&& s.len() == digits.len()
    &&& forall|i: int| 0 <= i < s.len() ==> is_hex_digit(s[i], #[trigger] digits[i])
}

/// Whether a text is a group that stands for two octets: one to four hexadecimal digits.
pub open spec fn is_group(s: Seq<char>, hi: u8, lo: u8) -> bool {
    1 <= s.len() <= 4 && exists|digits: Seq<nat>|
        #![trigger spells_hex(s, digits)]
        spells_hex(s, digits) && value(digits, 16) == hi * 256 + lo
}

/// Whether a text is one part of an address with dots: one to three decimal digits, with no zero
/// before others.
pub open spec fn is_part(s: Seq<char>, octet: u8) -> bool {
    1 <= s.len() <= 3 && (s.len() == 1 || s[0] != '0') && is_numeral(s, octet as nat)
}

/// Whether a text is four octets with dots between them.
pub open spec fn is_dotted(s: Seq<char>, octets: Seq<u8>) -> bool {
    octets.len() == 4 && exists|parts: Seq<Seq<char>>|
        #![trigger put_together(parts, '.')]
        parts.len() == 4 && s == put_together(parts, '.') && forall|i: int|
            0 <= i < 4 ==> is_part(#[trigger] parts[i], octets[i])
}

/// Whether parts stand for octets: each is a group of two, but where `dotted` says so, the last is
/// four with dots.
pub open spec fn are_octets(parts: Seq<Seq<char>>, octets: Seq<u8>, dotted: bool) -> bool {
    let groups = if dotted {
        parts.len() - 1
    } else {
        parts.len() as int
    };
    &&& groups >= 0
    &&& octets.len() == 2 * groups + (if dotted {
        4int
    } else {
        0
    })
    &&& forall|i: int|
        0 <= i < groups ==> is_group(#[trigger] parts[i], octets[2 * i], octets[2 * i + 1])
    &&& dotted ==> is_dotted(parts.last(), octets.skip(2 * groups))
}

/// Whether a text is an address in eight groups.
pub open spec fn is_full(s: Seq<char>, octets: Seq<u8>) -> bool {
    exists|parts: Seq<Seq<char>>, dotted: bool|
        #![trigger are_octets(parts, octets, dotted)]
        s == put_together(parts, ':') && are_octets(parts, octets, dotted)
}

/// Whether a text is an address in which `::` stands for one or more groups of zeros, those between
/// the first `from` octets and the last `16 - to`.
pub open spec fn is_short_at(s: Seq<char>, octets: Seq<u8>, from: int, to: int) -> bool {
    &&& 0 <= from && from + 2 <= to <= 16
    &&& forall|i: int| from <= i < to ==> #[trigger] octets[i] == 0
    &&& exists|head: Seq<Seq<char>>, tail: Seq<Seq<char>>, dotted: bool|
        #![trigger are_octets(head, octets.take(from), false), are_octets(
            tail,
            octets.skip(to),
            dotted,
        )]
        s == put_together(head, ':') + seq![':', ':'] + put_together(tail, ':') && are_octets(
            head,
            octets.take(from),
            false,
        ) && are_octets(tail, octets.skip(to), dotted)
}

/// Whether a text is an IPv6 address, in any of the ways to write it.
pub open spec fn is_address(s: Seq<char>, octets: Seq<u8>) -> bool {
    octets.len() == 16 && (is_full(s, octets) || exists|from: int, to: int|
        is_short_at(s, octets, from, to))
}

proof fn lemma_hex_spelled(s: Seq<char>, digits: Seq<nat>)
    requires
        spells_hex(s, digits),
    ensures
        forall|i: int| 0 <= i < s.len() ==> hex_value(#[trigger] s[i]) is Some,
        hex_number(s) == value(digits, 16),
    decreases s.len(),
{
    assert forall|i: int| 0 <= i < s.len() implies hex_value(#[trigger] s[i]) is Some by {
        assert(is_hex_digit(s[i], digits[i]));
    }
    if s.len() > 0 {
        let front = digits.drop_last();
        assert forall|i: int| 0 <= i < s.drop_last().len() implies is_hex_digit(
            s.drop_last()[i],
            #[trigger] front[i],
        ) by {
            assert(is_hex_digit(s[i], digits[i]));
        }
        lemma_hex_spelled(s.drop_last(), front);
        assert(is_hex_digit(s[s.len() - 1], digits[s.len() - 1]));
        assert(hex_value(s.last()) == Some(digits.last()));
    }
}

proof fn lemma_hex_small(s: Seq<char>)
    requires
        s.len() <= 4,
    ensures
        s.len() == 0 ==> hex_number(s) == 0,
        s.len() <= 1 ==> hex_number(s) < 0x10,
        s.len() <= 2 ==> hex_number(s) < 0x100,
        s.len() <= 3 ==> hex_number(s) < 0x1000,
        hex_number(s) < 0x10000,
    decreases s.len(),
{
    if s.len() > 0 {
        lemma_hex_small(s.drop_last());
    }
}

/// A group is read as the octets that it stands for, and nothing else is.
proof fn lemma_group(s: Seq<char>)
    ensures
        forall|hi: u8, lo: u8| #[trigger] is_group(s, hi, lo) ==> group_number(s) == Some(
            (hi * 256 + lo) as nat,
        ) && u16_bytes(group_number(s)->0 as u16) == seq![hi, lo],
        group_number(s) matches Some(n) ==> {
            let b = u16_bytes(n as u16);
            is_group(s, b[0], b[1])
        },
{
    assert forall|hi: u8, lo: u8| #[trigger] is_group(s, hi, lo) implies group_number(s) == Some(
        (hi * 256 + lo) as nat,
    ) && u16_bytes(group_number(s)->0 as u16) == seq![hi, lo] by {
        let digits = choose|digits: Seq<nat>|
            #![trigger spells_hex(s, digits)]
            spells_hex(s, digits) && value(digits, 16) == hi * 256 + lo;
        lemma_hex_spelled(s, digits);
        let n = (hi * 256 + lo) as u16;
        assert(u16_bytes(n) =~= seq![hi, lo]);
    }
    if group_number(s) is Some {
        let n = group_number(s)->0;
        lemma_hex_small(s);
        let digits = Seq::new(s.len(), |i: int| hex_value(s[i])->0);
        assert forall|i: int| 0 <= i < s.len() implies is_hex_digit(s[i], #[trigger] digits[i]) by {
            assert(hex_value(s[i]) is Some);
        }
        assert(spells_hex(s, digits));
        lemma_hex_spelled(s, digits);
        let b = u16_bytes(n as u16);
        assert(b[0] * 256 + b[1] == n);
    }
}

proof fn lemma_part(s: Seq<char>)
    ensures
        forall|v: u8| #[trigger] is_part(s, v) ==> octet_number(s) == Some(v as nat),
        octet_number(s) matches Some(n) ==> n <= 255 && is_part(s, n as u8),
{
    assert forall|v: u8| #[trigger] is_part(s, v) implies octet_number(s) == Some(v as nat) by {
        lemma_numeral_digits(s, v as nat);
    }
    if octet_number(s) is Some {
        lemma_digits_are_numeral(s);
    }
}

/// Four octets with dots are read as the octets that they stand for, and nothing else is.
proof fn lemma_dotted_read(s: Seq<char>)
    ensures
        forall|octets: Seq<u8>| #[trigger] is_dotted(s, octets) ==> ipv4_octets(s) == Some(octets)
            && group_number(s) is None && all_plain(s) && !s.contains(':') && s.len() > 0,
        ipv4_octets(s) matches Some(octets) ==> is_dotted(s, octets),
{
    assert forall|octets: Seq<u8>| #[trigger] is_dotted(s, octets) implies ipv4_octets(s) == Some(
        octets,
    ) && group_number(s) is None && all_plain(s) && !s.contains(':') && s.len() > 0 by {
        let parts = choose|parts: Seq<Seq<char>>|
            #![trigger put_together(parts, '.')]
            parts.len() == 4 && s == put_together(parts, '.') && forall|i: int|
                0 <= i < 4 ==> is_part(#[trigger] parts[i], octets[i]);
        lemma_four_parts(parts, octets);
    }
    if ipv4_octets(s) is Some {
        let octets = ipv4_octets(s)->0;
        let parts = pieces(s, '.');
        law_pieces_put_together(s, '.');
        assert forall|i: int| 0 <= i < 4 implies is_part(#[trigger] parts[i], octets[i]) by {
            lemma_part(parts[i]);
            assert(octet_number(parts[i]) is Some);
        }
    }
}

proof fn lemma_four_parts(parts: Seq<Seq<char>>, octets: Seq<u8>)
    requires
        parts.len() == 4,
        octets.len() == 4,
        forall|i: int| 0 <= i < 4 ==> is_part(#[trigger] parts[i], octets[i]),
    ensures
        ({
            let s = put_together(parts, '.');
            &&& ipv4_octets(s) == Some(octets)
            &&& group_number(s) is None
            &&& all_plain(s)
            &&& !s.contains(':')
            &&& s.len() > 0
        }),
{
    let s = put_together(parts, '.');
    assert forall|i: int| 0 <= i < 4 implies octet_number(#[trigger] parts[i]) == Some(
        octets[i] as nat,
    ) && all_digits(parts[i]) && !parts[i].contains('.') by {
        lemma_part(parts[i]);
        assert(is_part(parts[i], octets[i]));
        lemma_numeral_digits(parts[i], octets[i] as nat);
        assert forall|k: int| 0 <= k < parts[i].len() implies parts[i][k] != '.' by {
            assert(digit_value(parts[i][k]) is Some);
        }
    }
    lemma_pieces_of_parts(parts, '.');
    assert(Seq::new(4, |i: int| octet_number(parts[i])->0 as u8) =~= octets);
    let three = parts.drop_last();
    let two = three.drop_last();
    let one = two.drop_last();
    reveal_with_fuel(put_together, 5);
    assert(put_together(one, '.') == parts[0]);
    assert(put_together(two, '.') == parts[0].push('.') + parts[1]);
    assert(put_together(three, '.') == put_together(two, '.').push('.') + parts[2]);
    assert(s == put_together(three, '.').push('.') + parts[3]);
    assert(is_part(parts[0], octets[0]) && is_part(parts[1], octets[1]) && is_part(
        parts[2],
        octets[2],
    ) && is_part(parts[3], octets[3]));
    assert forall|i: int| 0 <= i < s.len() implies plain(#[trigger] s[i]) && s[i] != ':' by {
        let a = parts[0].len() as int;
        let b = a + 1 + parts[1].len();
        let c = b + 1 + parts[2].len();
        if i < a {
            assert(s[i] == parts[0][i]);
            assert(digit_value(parts[0][i]) is Some);
        } else if a < i < b {
            assert(s[i] == parts[1][i - a - 1]);
            assert(digit_value(parts[1][i - a - 1]) is Some);
        } else if b < i < c {
            assert(s[i] == parts[2][i - b - 1]);
            assert(digit_value(parts[2][i - b - 1]) is Some);
        } else if c < i {
            assert(s[i] == parts[3][i - c - 1]);
            assert(digit_value(parts[3][i - c - 1]) is Some);
        }
    }
}

/// Groups are read as the octets that they stand for.
proof fn lemma_groups_read(parts: Seq<Seq<char>>, octets: Seq<u8>, v4_last: bool)
    requires
        are_octets(parts, octets, false),
    ensures
        group_octets(parts, v4_last) == Some(octets),
    decreases parts.len(),
{
    if parts.len() == 0 {
        assert(octets =~= Seq::<u8>::empty());
    } else {
        let n = parts.len() - 1;
        let front = parts.drop_last();
        let before = octets.take(2 * n);
        assert forall|i: int| 0 <= i < front.len() implies is_group(
            #[trigger] front[i],
            before[2 * i],
            before[2 * i + 1],
        ) by {
            assert(is_group(parts[i], octets[2 * i], octets[2 * i + 1]));
        }
        lemma_groups_read(front, before, false);
        lemma_group(parts[n]);
        assert(is_group(parts[n], octets[2 * n], octets[2 * n + 1]));
        assert(before + seq![octets[2 * n], octets[2 * n + 1]] =~= octets);
    }
}

/// Parts are read as the octets that they stand for.
proof fn lemma_parts_read(parts: Seq<Seq<char>>, octets: Seq<u8>, dotted: bool, v4_last: bool)
    requires
        are_octets(parts, octets, dotted),
        dotted ==> v4_last,
    ensures
        group_octets(parts, v4_last) == Some(octets),
        forall|i: int|
            0 <= i < parts.len() ==> (#[trigger] parts[i]).len() > 0 && all_plain(parts[i])
                && !parts[i].contains(':'),
{
    let groups = if dotted {
        parts.len() - 1
    } else {
        parts.len() as int
    };
    assert forall|i: int| 0 <= i < groups implies (#[trigger] parts[i]).len() > 0 && all_plain(
        parts[i],
    ) && !parts[i].contains(':') by {
        assert(is_group(parts[i], octets[2 * i], octets[2 * i + 1]));
        lemma_group(parts[i]);
        assert forall|k: int| 0 <= k < parts[i].len() implies plain(#[trigger] parts[i][k])
            && parts[i][k] != ':' by {
            assert(hex_value(parts[i][k]) is Some);
        }
    }
    if dotted {
        let front = parts.drop_last();
        let before = octets.take(2 * groups);
        let last = octets.skip(2 * groups);
        assert forall|i: int| 0 <= i < front.len() implies is_group(
            #[trigger] front[i],
            before[2 * i],
            before[2 * i + 1],
        ) by {
            assert(is_group(parts[i], octets[2 * i], octets[2 * i + 1]));
        }
        lemma_groups_read(front, before, false);
        lemma_dotted_read(parts.last());
        assert(is_dotted(parts.last(), last));
        assert(before + last =~= octets);
    } else {
        lemma_groups_read(parts, octets, v4_last);
    }
}

/// What is read stands for the octets that it is read as.
proof fn lemma_read_parts(parts: Seq<Seq<char>>, v4_last: bool)
    ensures
        group_octets(parts, v4_last) matches Some(octets) ==> are_octets(parts, octets, false) || v4_last
            && are_octets(parts, octets, true),
        group_octets(parts, false) matches Some(octets) ==> are_octets(parts, octets, false),
    decreases parts.len(),
{
    if parts.len() > 0 {
        let n = parts.len() - 1;
        let front = parts.drop_last();
        let last = parts.last();
        lemma_read_parts(front, false);
        lemma_group(last);
        lemma_dotted_read(last);
        if group_octets(front, false) is Some {
            let before = group_octets(front, false)->0;
            assert(are_octets(front, before, false));
            if group_number(last) is Some {
                let b = u16_bytes(group_number(last)->0 as u16);
                let octets = before + b;
                assert forall|i: int| 0 <= i < parts.len() implies is_group(
                    #[trigger] parts[i],
                    octets[2 * i],
                    octets[2 * i + 1],
                ) by {
                    if i < n {
                        assert(is_group(front[i], before[2 * i], before[2 * i + 1]));
                    }
                }
                assert(are_octets(parts, octets, false));
            } else if ipv4_octets(last) is Some {
                let four = ipv4_octets(last)->0;
                let octets = before + four;
                assert(octets.skip(2 * n) =~= four);
                assert forall|i: int| 0 <= i < n implies is_group(
                    #[trigger] parts[i],
                    octets[2 * i],
                    octets[2 * i + 1],
                ) by {
                    assert(is_group(front[i], before[2 * i], before[2 * i + 1]));
                }
                assert(are_octets(parts, octets, true));
            }
        }
    } else {
        assert(are_octets(parts, Seq::<u8>::empty(), false));
    }
}

/// One side of an address is read as the octets that it stands for.
proof fn lemma_side_read(parts: Seq<Seq<char>>, octets: Seq<u8>, dotted: bool, v4_last: bool)
    requires
        are_octets(parts, octets, dotted),
        dotted ==> v4_last,
    ensures
        side_octets(put_together(parts, ':'), v4_last) == Some(octets),
        tidy(put_together(parts, ':')),
{
    lemma_parts_read(parts, octets, dotted, v4_last);
    lemma_parts_tidy(parts);
    if parts.len() > 0 {
        lemma_pieces_of_parts(parts, ':');
    } else {
        assert(octets =~= Seq::<u8>::empty());
    }
}

/// What one side of an address is read as.
proof fn lemma_read_side(s: Seq<char>, v4_last: bool) -> (r: (Seq<Seq<char>>, bool))
    requires
        side_octets(s, v4_last) is Some,
    ensures
        are_octets(r.0, side_octets(s, v4_last)->0, r.1),
        put_together(r.0, ':') == s,
        !v4_last ==> !r.1,
{
    let octets = side_octets(s, v4_last)->0;
    if s.len() == 0 {
        let none = Seq::<Seq<char>>::empty();
        assert(s =~= Seq::<char>::empty());
        assert(are_octets(none, octets, false));
        (none, false)
    } else {
        let parts = pieces(s, ':');
        law_pieces_put_together(s, ':');
        lemma_read_parts(parts, v4_last);
        if are_octets(parts, octets, false) {
            (parts, false)
        } else {
            (parts, true)
        }
    }
}

/// An address is written in the characters of addresses.
pub proof fn lemma_address_chars(s: Seq<char>, octets: Seq<u8>)
    requires
        is_address(s, octets),
    ensures
        all_plain(s),
        s.len() > 0,
{
    if is_full(s, octets) {
        let (parts, dotted) = choose|parts: Seq<Seq<char>>, dotted: bool|
            #![trigger are_octets(parts, octets, dotted)]
            s == put_together(parts, ':') && are_octets(parts, octets, dotted);
        lemma_parts_read(parts, octets, dotted, true);
        lemma_parts_tidy(parts);
    } else {
        let (from, to) = choose|from: int, to: int| is_short_at(s, octets, from, to);
        let before = octets.take(from);
        let behind = octets.skip(to);
        let (head_parts, tail_parts, dotted) = choose|
            head: Seq<Seq<char>>,
            tail: Seq<Seq<char>>,
            dotted: bool,
        |
            #![trigger are_octets(head, before, false), are_octets(tail, behind, dotted)]
            s == put_together(head, ':') + seq![':', ':'] + put_together(tail, ':') && are_octets(
                head,
                before,
                false,
            ) && are_octets(tail, behind, dotted);
        lemma_parts_read(head_parts, before, false, true);
        lemma_parts_read(tail_parts, behind, dotted, true);
        lemma_parts_tidy(head_parts);
        lemma_parts_tidy(tail_parts);
        let head = put_together(head_parts, ':');
        let tail = put_together(tail_parts, ':');
        assert forall|i: int| 0 <= i < s.len() implies plain(#[trigger] s[i]) by {
            if i < head.len() {
                assert(s[i] == head[i]);
            } else if i >= head.len() + 2 {
                assert(s[i] == tail[i - head.len() - 2]);
            }
        }
    }
}

proof fn lemma_gap_found(s: Seq<char>, from: int)
    requires
        0 <= from <= s.len(),
    ensures
        from <= gap_at(s, from) <= s.len(),
        gap_at(s, from) < s.len() ==> gap_at(s, from) + 1 < s.len() && s[gap_at(s, from)] == ':'
            && s[gap_at(s, from) + 1] == ':',
    decreases s.len() - from,
{
    if from + 1 < s.len() && !(s[from] == ':' && s[from + 1] == ':') {
        lemma_gap_found(s, from + 1);
    }
}

/// A text is read as an address exactly if it is that address in one of the ways to write it: eight
/// groups of one to four hexadecimal digits in either case, with or without zeros before them and
/// with colons between them; `::` in place of one or more groups of zeros; and the last four octets
/// in decimal with dots. No other text is read as an address.
pub proof fn law_addresses_are_read(s: Seq<char>, octets: Seq<u8>)
    ensures
        ipv6_octets(s) == Some(octets) <==> is_address(s, octets),
{
    if is_address(s, octets) {
        lemma_address_is_read(s, octets);
    }
    if ipv6_octets(s) == Some(octets) {
        lemma_read_is_address(s, octets);
    }
}

/// Two sides with `::` between them are read as what they are read as, with zeros between.
proof fn lemma_two_sides(head: Seq<char>, tail: Seq<char>, octets: Seq<u8>, from: int, to: int)
    requires
        octets.len() == 16,
        0 <= from,
        from + 2 <= to <= 16,
        forall|i: int| from <= i < to ==> #[trigger] octets[i] == 0,
        side_octets(head, false) == Some(octets.take(from)),
        side_octets(tail, true) == Some(octets.skip(to)),
        tidy(head),
    ensures
        ipv6_octets(head + seq![':', ':'] + tail) == Some(octets),
{
    let s = head + seq![':', ':'] + tail;
    let before = octets.take(from);
    let behind = octets.skip(to);
    let k = head.len() as int;
    assert forall|i: int| 0 <= i < k && i + 1 < s.len() && #[trigger] s[i] == ':' implies s[i + 1]
        != ':' by {
        assert(s[i] == head[i]);
        if i + 1 < k {
            assert(s[i + 1] == head[i + 1]);
        } else {
            assert(head.last() == ':');
        }
    }
    assert(s[k] == ':' && s[k + 1] == ':');
    lemma_gap_at(s, 0, k);
    assert(s.take(k) =~= head);
    assert(s.skip(k + 2) =~= tail);
    let zeros = Seq::new((16 - before.len() - behind.len()) as nat, |i: int| 0u8);
    assert(before + zeros + behind =~= octets);
}

proof fn lemma_full_is_read(s: Seq<char>, octets: Seq<u8>)
    requires
        octets.len() == 16,
        side_octets(s, true) == Some(octets),
        tidy(s),
    ensures
        ipv6_octets(s) == Some(octets),
{
    lemma_gap_at(s, 0, s.len() as int);
}

proof fn lemma_address_is_read(s: Seq<char>, octets: Seq<u8>)
    requires
        is_address(s, octets),
    ensures
        ipv6_octets(s) == Some(octets),
{
    if is_full(s, octets) {
        let (parts, dotted) = choose|parts: Seq<Seq<char>>, dotted: bool|
            #![trigger are_octets(parts, octets, dotted)]
            s == put_together(parts, ':') && are_octets(parts, octets, dotted);
        lemma_side_read(parts, octets, dotted, true);
        lemma_full_is_read(s, octets);
    } else {
        let (from, to) = choose|from: int, to: int| is_short_at(s, octets, from, to);
        lemma_short_is_read(s, octets, from, to);
    }
}

proof fn lemma_short_is_read(s: Seq<char>, octets: Seq<u8>, from: int, to: int)
    requires
        octets.len() == 16,
        is_short_at(s, octets, from, to),
    ensures
        ipv6_octets(s) == Some(octets),
{
    let before = octets.take(from);
    let behind = octets.skip(to);
    let (head_parts, tail_parts, dotted) = choose|
        head: Seq<Seq<char>>,
        tail: Seq<Seq<char>>,
        dotted: bool,
    |
        #![trigger are_octets(head, before, false), are_octets(tail, behind, dotted)]
        s == put_together(head, ':') + seq![':', ':'] + put_together(tail, ':') && are_octets(
            head,
            before,
            false,
        ) && are_octets(tail, behind, dotted);
    lemma_side_read(head_parts, before, false, false);
    lemma_side_read(tail_parts, behind, dotted, true);
    lemma_two_sides(put_together(head_parts, ':'), put_together(tail_parts, ':'), octets, from, to);
}

/// The sides of an address with `::` that has been read.
proof fn lemma_sides_of_read(s: Seq<char>, octets: Seq<u8>)
    requires
        ipv6_octets(s) == Some(octets),
        gap_at(s, 0) < s.len(),
    ensures
        ({
            let gap = gap_at(s, 0);
            let before = side_octets(s.take(gap), false);
            let behind = side_octets(s.skip(gap + 2), true);
            &&& before is Some && behind is Some
            &&& before->0.len() + behind->0.len() <= 14
            &&& octets.len() == 16
            &&& octets.take(before->0.len() as int) == before->0
            &&& octets.skip(16 - behind->0.len()) == behind->0
            &&& forall|i: int|
                before->0.len() <= i < 16 - behind->0.len() ==> #[trigger] octets[i] == 0
            &&& s == s.take(gap) + seq![':', ':'] + s.skip(gap + 2)
        }),
{
    lemma_gap_found(s, 0);
    let gap = gap_at(s, 0);
    let before = side_octets(s.take(gap), false)->0;
    let behind = side_octets(s.skip(gap + 2), true)->0;
    assert(octets.take(before.len() as int) =~= before);
    assert(octets.skip(16 - behind.len()) =~= behind);
    assert(s =~= s.take(gap) + seq![':', ':'] + s.skip(gap + 2));
}

proof fn lemma_read_is_address(s: Seq<char>, octets: Seq<u8>)
    requires
        ipv6_octets(s) == Some(octets),
    ensures
        is_address(s, octets),
{
    let gap = gap_at(s, 0);
    lemma_gap_found(s, 0);
    if gap == s.len() {
        let (parts, dotted) = lemma_read_side(s, true);
        assert(are_octets(parts, octets, dotted));
    } else {
        lemma_sides_of_read(s, octets);
        lemma_read_is_short(s, octets);
    }
}

proof fn lemma_read_is_short(s: Seq<char>, octets: Seq<u8>)
    requires
        ipv6_octets(s) == Some(octets),
        gap_at(s, 0) < s.len(),
    ensures
        octets.len() == 16,
        exists|from: int, to: int| is_short_at(s, octets, from, to),
{
    let gap = gap_at(s, 0);
    lemma_sides_of_read(s, octets);
    let (head_parts, no) = lemma_read_side(s.take(gap), false);
    let (tail_parts, dotted) = lemma_read_side(s.skip(gap + 2), true);
    let from = side_octets(s.take(gap), false)->0.len() as int;
    let to = 16 - side_octets(s.skip(gap + 2), true)->0.len();
    assert(are_octets(head_parts, octets.take(from), false));
    assert(are_octets(tail_parts, octets.skip(to), dotted));
    assert(is_short_at(s, octets, from, to));
}

} // verus!
