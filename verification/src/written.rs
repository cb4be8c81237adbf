//! The texts that IPv6 addresses and blocks are written as, and that they read back as what was
//! written.

use vstd::prelude::*;
use crate::addr::{u16_bytes, u16_of};
use crate::block::{block_of, law_blocks_read_are_masked, BlockFault, Prefix};
use crate::ipv6_text::{gap_at, group_number, group_octets, hex_number, hex_value, ipv4_octets};
use crate::ipv6_text::{ipv6_octets, octet_number, side_octets};
use crate::text::{all_digits, decimal, digit_value, first_at, is_space, law_pieces_of_two, number_of};
use crate::text::{pieces, put_together, trim_end, trim_start, trimmed};

verus! {

/// The hexadecimal digit of a value below 16, a letter in lower case.
pub open spec fn hex_char(n: nat) -> char {
    if n < 10 {
        ('0' as int + n) as char
    } else {
        ('a' as int + n - 10) as char
    }
}

/// A number in hexadecimal digits, without zeros before it.
pub open spec fn hex_text(n: nat) -> Seq<char>
    decreases n,
{
    if n < 16 {
        seq![hex_char(n)]
    } else {
        hex_text(n / 16).push(hex_char(n % 16))
    }
}

/// The decimal digit of a value below 10.
pub open spec fn digit_char(n: nat) -> char {
    ('0' as int + n) as char
}

/// A number in decimal digits, without zeros before it.
pub open spec fn decimal_text(n: nat) -> Seq<char>
    decreases n,
{
    if n < 10 {
        seq![digit_char(n)]
    } else {
        decimal_text(n / 10).push(digit_char(n % 10))
    }
}

/// The groups of two octets each, in hexadecimal digits.
pub open spec fn hex_parts(octets: Seq<u8>) -> Seq<Seq<char>> {
    Seq::new(
        octets.len() / 2,
        |i: int| hex_text(u16_of(octets[2 * i], octets[2 * i + 1]) as nat),
    )
}

/// Four octets in decimal digits with dots between them.
pub open spec fn dotted_text(octets: Seq<u8>) -> Seq<char> {
    put_together(Seq::new(4, |i: int| decimal_text(octets[i] as nat)), '.')
}

/// The parts between the colons of some octets; where `dotted` says so, the last four octets are
/// one part with dots.
pub open spec fn side_parts(octets: Seq<u8>, dotted: bool) -> Seq<Seq<char>> {
    if dotted {
        hex_parts(octets.take(octets.len() - 4)).push(dotted_text(octets.skip(octets.len() - 4)))
    } else {
        hex_parts(octets)
    }
}

/// Some octets with colons between their parts.
pub open spec fn side_text(octets: Seq<u8>, dotted: bool) -> Seq<char> {
    put_together(side_parts(octets, dotted), ':')
}

/// How an address is written: from which group on how many groups of zeros are left out, if any
/// are, and whether the last four octets stand with dots.
pub struct Form {
    pub gap: Option<(nat, nat)>,
    pub dotted: bool,
}

impl Form {
    /// How many octets stand before those that are left out.
    pub open spec fn head(self) -> int {
        match self.gap {
            Some((from, n)) => 2 * from as int,
            None => 0,
        }
    }

    /// Where the octets start that stand behind those that are left out.
    pub open spec fn tail(self) -> int {
        match self.gap {
            Some((from, n)) => 2 * (from + n) as int,
            None => 0,
        }
    }

    /// Whether an address can be written in this form: at least one group is left out, if any is,
    /// all that are left out are zeros, and the octets with dots are not among them.
    pub open spec fn fits(self, octets: Seq<u8>) -> bool {
        &&& self.gap matches Some((from, n)) ==> n > 0 && from + n <= 8
        &&& forall|i: int| self.head() <= i < self.tail() ==> #[trigger] octets[i] == 0
        &&& self.dotted ==> self.tail() <= 12
    }
}

/// An address as it is written in a form.
pub open spec fn address_text(octets: Seq<u8>, form: Form) -> Seq<char> {
    if form.gap is None {
        side_text(octets, form.dotted)
    } else {
        side_text(octets.take(form.head()), false) + seq![':', ':'] + side_text(
            octets.skip(form.tail()),
            form.dotted,
        )
    }
}

/// A block as it is written: the network in a form, a `/`, and the length of the prefix.
pub open spec fn block_text(b: Prefix, form: Form) -> Seq<char> {
    address_text(b.network, form).push('/') + decimal_text(b.len as nat)
}

/// Whether a character may stand in an address.
pub open spec fn plain(c: char) -> bool {
    hex_value(c) is Some || c == ':' || c == '.'
}

spec fn all_hex(s: Seq<char>) -> bool {
    forall|i: int| 0 <= i < s.len() ==> hex_value(#[trigger] s[i]) is Some
}

/// Whether all characters of a text may stand in an address.
pub open spec fn all_plain(s: Seq<char>) -> bool {
    forall|i: int| 0 <= i < s.len() ==> plain(#[trigger] s[i])
}

proof fn lemma_hex_text(n: nat)
    ensures
        hex_text(n).len() >= 1,
        all_hex(hex_text(n)),
        hex_number(hex_text(n)) == n,
        n < 0x10 ==> hex_text(n).len() <= 1,
        n < 0x100 ==> hex_text(n).len() <= 2,
        n < 0x1000 ==> hex_text(n).len() <= 3,
        n < 0x10000 ==> hex_text(n).len() <= 4,
    decreases n,
{
    let s = hex_text(n);
    if n < 16 {
        assert(s.drop_last() =~= Seq::<char>::empty());
        assert(hex_number(s.drop_last()) == 0);
        assert(hex_value(hex_char(n)) == Some(n));
    } else {
        lemma_hex_text(n / 16);
        assert(s.drop_last() =~= hex_text(n / 16));
        assert(hex_value(hex_char(n % 16)) == Some(n % 16));
    }
}

/// A number is written in digits that stand for it, without zeros before it.
pub proof fn lemma_decimal_text(n: nat)
    ensures
        decimal_text(n).len() >= 1,
        all_digits(decimal_text(n)),
        number_of(decimal_text(n)) == n,
        n > 0 ==> decimal_text(n)[0] != '0',
        n < 10 ==> decimal_text(n).len() == 1,
        n < 100 ==> decimal_text(n).len() <= 2,
        n < 1000 ==> decimal_text(n).len() <= 3,
    decreases n,
{
    let s = decimal_text(n);
    if n < 10 {
        assert(s.drop_last() =~= Seq::<char>::empty());
        assert(number_of(s.drop_last()) == 0);
        assert(digit_value(digit_char(n)) == Some(n));
    } else {
        lemma_decimal_text(n / 10);
        assert(s.drop_last() =~= decimal_text(n / 10));
        assert(s[0] == decimal_text(n / 10)[0]);
        assert(digit_value(digit_char(n % 10)) == Some(n % 10));
    }
}

/// A text without separators is one piece.
pub proof fn lemma_one_piece(s: Seq<char>, separator: char)
    requires
        !s.contains(separator),
    ensures
        pieces(s, separator) == seq![s],
    decreases s.len(),
{
    if s.len() > 0 {
        let front = s.drop_last();
        assert forall|i: int| 0 <= i < front.len() implies front[i] != separator by {
            assert(s.contains(s[i]));
        }
        lemma_one_piece(front, separator);
        assert(s.contains(s.last()));
        assert(front.push(s.last()) =~= s);
        assert(pieces(s, separator) =~= seq![s]);
    }
}

/// Parts that are put together are the pieces again.
pub proof fn lemma_pieces_of_parts(parts: Seq<Seq<char>>, separator: char)
    requires
        parts.len() > 0,
        forall|i: int| 0 <= i < parts.len() ==> !(#[trigger] parts[i]).contains(separator),
    ensures
        pieces(put_together(parts, separator), separator) == parts,
    decreases parts.len(),
{
    if parts.len() == 1 {
        lemma_one_piece(parts[0], separator);
        assert(parts =~= seq![parts[0]]);
    } else {
        let front = parts.drop_last();
        assert forall|i: int| 0 <= i < front.len() implies !(#[trigger] front[i]).contains(
            separator,
        ) by {
            assert(front[i] == parts[i]);
        }
        lemma_pieces_of_parts(front, separator);
        law_pieces_of_two(put_together(front, separator), parts.last(), separator);
        lemma_one_piece(parts[parts.len() - 1], separator);
        assert(front + seq![parts.last()] =~= parts);
    }
}

/// Whether colons stand only between other characters, and no two of them next to each other.
pub open spec fn tidy(s: Seq<char>) -> bool {
    &&& s.len() > 0 ==> s[0] != ':' && s.last() != ':'
    &&& forall|i: int| 0 <= i < s.len() - 1 && #[trigger] s[i] == ':' ==> s[i + 1] != ':'
}

/// Parts without colons that are put together with colons are tidy.
pub proof fn lemma_parts_tidy(parts: Seq<Seq<char>>)
    requires
        forall|i: int|
            0 <= i < parts.len() ==> (#[trigger] parts[i]).len() > 0 && all_plain(parts[i])
                && !parts[i].contains(':'),
    ensures
        tidy(put_together(parts, ':')),
        all_plain(put_together(parts, ':')),
        parts.len() > 0 ==> put_together(parts, ':').len() > 0,
    decreases parts.len(),
{
    let whole = put_together(parts, ':');
    if parts.len() > 0 {
        let last = parts[parts.len() - 1];
        assert(all_plain(last));
        assert forall|i: int| 0 <= i < last.len() implies last[i] != ':' by {
            assert(last.contains(last[i]));
        }
        if parts.len() > 1 {
            let front = parts.drop_last();
            assert forall|i: int| 0 <= i < front.len() implies (#[trigger] front[i]).len() > 0
                && all_plain(front[i]) && !front[i].contains(':') by {
                assert(front[i] == parts[i]);
            }
            lemma_parts_tidy(front);
            let head = put_together(front, ':');
            let k = head.len() as int;
            assert(whole =~= head.push(':') + last);
            assert forall|i: int| 0 <= i < whole.len() implies plain(#[trigger] whole[i]) by {
                if i < k {
                    assert(whole[i] == head[i]);
                } else if i > k {
                    assert(whole[i] == last[i - k - 1]);
                }
            }
            assert forall|i: int| 0 <= i < whole.len() - 1 && #[trigger] whole[i] == ':' implies
                whole[i + 1] != ':' by {
                if i < k {
                    assert(whole[i] == head[i]);
                    if i + 1 < k {
                        assert(whole[i + 1] == head[i + 1]);
                    } else {
                        assert(head.last() == whole[i]);
                    }
                } else if i == k {
                    assert(whole[i + 1] == last[0]);
                } else {
                    assert(whole[i] == last[i - k - 1]);
                }
            }
            assert(whole[0] == head[0]);
            assert(whole.last() == last[last.len() - 1]);
        }
    }
}

/// Four octets with dots between them are read as the same octets, and cannot be taken for a group.
proof fn lemma_dotted(octets: Seq<u8>)
    requires
        octets.len() == 4,
    ensures
        ipv4_octets(dotted_text(octets)) == Some(octets),
        group_number(dotted_text(octets)) is None,
        dotted_text(octets).len() > 4,
        all_plain(dotted_text(octets)),
        !dotted_text(octets).contains(':'),
{
    let parts = Seq::new(4, |i: int| decimal_text(octets[i] as nat));
    let s = dotted_text(octets);
    assert forall|i: int| 0 <= i < 4 implies !(#[trigger] parts[i]).contains('.') && octet_number(
        parts[i],
    ) == Some(octets[i] as nat) && parts[i].len() > 0 by {
        lemma_decimal_text(octets[i] as nat);
        assert forall|k: int| 0 <= k < parts[i].len() implies parts[i][k] != '.' by {
            assert(digit_value(parts[i][k]) is Some);
        }
    }
    lemma_pieces_of_parts(parts, '.');
    assert(Seq::new(4, |i: int| octet_number(parts[i])->0 as u8) =~= octets);
    let three = parts.drop_last();
    let two = three.drop_last();
    let one = two.drop_last();
    reveal_with_fuel(put_together, 5);
    assert(put_together(one, '.') == parts[0]);
    assert(put_together(two, '.') == parts[0].push('.') + parts[1]);
    assert(put_together(three, '.') == put_together(two, '.').push('.') + parts[2]);
    assert(s == put_together(three, '.').push('.') + parts[3]);
    assert forall|i: int| 0 <= i < s.len() implies plain(#[trigger] s[i]) && s[i] != ':' by {
        let a = parts[0].len() as int;
        let b = a + 1 + parts[1].len();
        let c = b + 1 + parts[2].len();
        lemma_decimal_text(octets[0] as nat);
        lemma_decimal_text(octets[1] as nat);
        lemma_decimal_text(octets[2] as nat);
        lemma_decimal_text(octets[3] as nat);
        if i < a {
            assert(s[i] == parts[0][i]);
            assert(digit_value(parts[0][i]) is Some);
        } else if a < i < b {
            assert(s[i] == parts[1][i - a - 1]);
            assert(digit_value(parts[1][i - a - 1]) is Some);
        } else if b < i < c {
            assert(s[i] == parts[2][i - b - 1]);
            assert(digit_value(parts[2][i - b - 1]) is Some);
        } else if c < i {
            assert(s[i] == parts[3][i - c - 1]);
            assert(digit_value(parts[3][i - c - 1]) is Some);
        }
    }
}

/// What a group of two octets is written as.
proof fn lemma_hex_part(octets: Seq<u8>, i: int)
    requires
        octets.len() % 2 == 0,
        0 <= i < octets.len() / 2,
    ensures
        ({
            let part = hex_parts(octets)[i];
            &&& part.len() > 0
            &&& all_plain(part)
            &&& !part.contains(':')
            &&& group_number(part) is Some
            &&& u16_bytes(group_number(part)->0 as u16) == seq![octets[2 * i], octets[2 * i + 1]]
        }),
{
    let hi = octets[2 * i];
    let lo = octets[2 * i + 1];
    let n = u16_of(hi, lo);
    assert(n == hi * 256 + lo);
    let part = hex_parts(octets)[i];
    lemma_hex_text(n as nat);
    assert forall|k: int| 0 <= k < part.len() implies plain(#[trigger] part[k]) && part[k] != ':' by {
        assert(hex_value(part[k]) is Some);
    }
    assert(group_number(part) == Some(n as nat));
    assert(u16_bytes(n) =~= seq![hi, lo]);
}

/// Groups are read as the octets that were written.
proof fn lemma_hex_parts(octets: Seq<u8>, v4_last: bool)
    requires
        octets.len() % 2 == 0,
    ensures
        group_octets(hex_parts(octets), v4_last) == Some(octets),
    decreases octets.len(),
{
    let parts = hex_parts(octets);
    if octets.len() == 0 {
        assert(octets =~= Seq::<u8>::empty());
    } else {
        let n = octets.len() / 2;
        let front = octets.take(octets.len() - 2);
        assert(parts.drop_last() =~= hex_parts(front));
        lemma_hex_parts(front, false);
        lemma_hex_part(octets, n - 1);
        assert(front + seq![octets[2 * (n - 1)], octets[2 * (n - 1) + 1]] =~= octets);
    }
}

/// What octets are written as, and that it is read as the same octets.
proof fn lemma_side(octets: Seq<u8>, dotted: bool, v4_last: bool)
    requires
        octets.len() % 2 == 0,
        dotted ==> v4_last && octets.len() >= 4,
    ensures
        side_octets(side_text(octets, dotted), v4_last) == Some(octets),
        tidy(side_text(octets, dotted)),
        all_plain(side_text(octets, dotted)),
{
    let parts = side_parts(octets, dotted);
    let front = octets.take(octets.len() - 4);
    let back = octets.skip(octets.len() - 4);
    if dotted {
        lemma_dotted(back);
        lemma_hex_parts(front, false);
        assert(parts.drop_last() =~= hex_parts(front));
        assert(front + back =~= octets);
    } else {
        lemma_hex_parts(octets, v4_last);
    }
    assert(group_octets(parts, v4_last) == Some(octets));
    assert forall|i: int| 0 <= i < parts.len() implies (#[trigger] parts[i]).len() > 0
        && all_plain(parts[i]) && !parts[i].contains(':') by {
        if !dotted {
            lemma_hex_part(octets, i);
        } else if i < parts.len() - 1 {
            lemma_hex_part(front, i);
        }
    }
    lemma_parts_tidy(parts);
    if parts.len() > 0 {
        lemma_pieces_of_parts(parts, ':');
    } else {
        assert(octets =~= Seq::<u8>::empty());
    }
}

/// Where `::` first occurs.
pub proof fn lemma_gap_at(s: Seq<char>, from: int, k: int)
    requires
        0 <= from <= k <= s.len(),
        forall|i: int| from <= i < k && i + 1 < s.len() && #[trigger] s[i] == ':' ==> s[i + 1] != ':',
        k == s.len() || k + 1 < s.len() && s[k] == ':' && s[k + 1] == ':',
    ensures
        gap_at(s, from) == k,
    decreases k - from,
{
    if from < k {
        if from + 1 < s.len() {
            lemma_gap_at(s, from + 1, k);
        }
    }
}

/// An address reads back as what was written, in whatever form it is written: with any groups of
/// zeros left out or none, and with dots at the end or without. The usual short form, in which the
/// longest run of zeros is left out, is one of these.
pub proof fn law_addresses_read_back(octets: Seq<u8>, form: Form)
    requires
        octets.len() == 16,
        form.fits(octets),
    ensures
        ipv6_octets(address_text(octets, form)) == Some(octets),
{
    let s = address_text(octets, form);
    if form.gap is None {
        lemma_side(octets, form.dotted, true);
        lemma_gap_at(s, 0, s.len() as int);
    } else {
        let before = octets.take(form.head());
        let behind = octets.skip(form.tail());
        lemma_side(before, false, false);
        lemma_side(behind, form.dotted, true);
        let head = side_text(before, false);
        let tail = side_text(behind, form.dotted);
        let k = head.len() as int;
        assert forall|i: int| 0 <= i < k && i + 1 < s.len() && #[trigger] s[i] == ':' implies s[i
            + 1] != ':' by {
            assert(s[i] == head[i]);
            if i + 1 < k {
                assert(s[i + 1] == head[i + 1]);
            } else {
                assert(head.last() == ':');
            }
        }
        lemma_gap_at(s, 0, k);
        assert(s.take(k) =~= head);
        assert(s.skip(k + 2) =~= tail);
        let zeros = Seq::new((16 - before.len() - behind.len()) as nat, |i: int| 0u8);
        assert(before + zeros + behind =~= octets);
    }
}

/// An address is written in the characters of addresses.
proof fn lemma_address_plain(octets: Seq<u8>, form: Form)
    requires
        octets.len() == 16,
        form.fits(octets),
    ensures
        all_plain(address_text(octets, form)),
{
    let s = address_text(octets, form);
    if form.gap is None {
        lemma_side(octets, form.dotted, true);
    } else {
        let before = octets.take(form.head());
        let behind = octets.skip(form.tail());
        lemma_side(before, false, false);
        lemma_side(behind, form.dotted, true);
        let head = side_text(before, false);
        let tail = side_text(behind, form.dotted);
        assert forall|i: int| 0 <= i < s.len() implies plain(#[trigger] s[i]) by {
            if i < head.len() {
                assert(s[i] == head[i]);
            } else if i >= head.len() + 2 {
                assert(s[i] == tail[i - head.len() - 2]);
            }
        }
    }
}

/// Nothing is trimmed off a text without white space at its ends.
proof fn lemma_nothing_trimmed(s: Seq<char>)
    requires
        s.len() > 0 ==> !is_space(s[0]) && !is_space(s.last()),
    ensures
        trimmed(s) == s,
{
    assert(trim_start(s) == s);
    assert(trim_end(s) == s);
}

/// Where a character first occurs.
pub proof fn lemma_first_at(s: Seq<char>, c: char, from: int, k: int)
    requires
        0 <= from <= k < s.len(),
        forall|i: int| from <= i < k ==> #[trigger] s[i] != c,
        s[k] == c,
    ensures
        first_at(s, c, from) == k,
    decreases k - from,
{
    if from < k {
        lemma_first_at(s, c, from + 1, k);
    }
}

/// A block that was read from some text reads back as the same block from whatever text it is
/// written as: same network, same length of the prefix.
pub proof fn law_blocks_read_back(s: Seq<char>, form: Form)
    requires
        block_of(s) is Ok,
        form.fits(block_of(s)->Ok_0.network),
    ensures
        block_of(block_text(block_of(s)->Ok_0, form)) == Ok::<Prefix, BlockFault>(block_of(s)->Ok_0),
{
    let b = block_of(s)->Ok_0;
    law_blocks_read_are_masked(s);
    let address = address_text(b.network, form);
    let length = decimal_text(b.len as nat);
    let text = block_text(b, form);
    let k = address.len() as int;
    law_addresses_read_back(b.network, form);
    lemma_address_plain(b.network, form);
    lemma_decimal_text(b.len as nat);
    assert forall|i: int| 0 <= i < k implies #[trigger] text[i] != '/' by {
        assert(text[i] == address[i]);
        assert(plain(address[i]));
    }
    lemma_first_at(text, '/', 0, k);
    assert(text.take(k) =~= address);
    assert(text.skip(k + 1) =~= length);
    assert forall|i: int| 0 <= i < address.len() implies !is_space(#[trigger] address[i]) by {
        assert(plain(address[i]));
    }
    assert forall|i: int| 0 <= i < length.len() implies !is_space(#[trigger] length[i]) by {
        assert(digit_value(length[i]) is Some);
    }
    lemma_nothing_trimmed(address);
    lemma_nothing_trimmed(length);
    assert(digit_value(length[0]) is Some);
    assert(decimal(length, 255) == Some(b.len as nat));
}

} // verus!
