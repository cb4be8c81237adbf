//! The text form of IPv6 addresses: eight groups of one to four hexadecimal digits between
//! colons, where `::` may stand for one or more groups of zeros, and where an IPv4 address with
//! dots may stand for the last two groups.

use vstd::prelude::*;
use vstd::string::StrSliceExecFns;
use crate::addr::{append_u16, u16_bytes, Ipv6Addr};
use crate::text::{all_digits, chars_of, digit_value, number_of, parse_decimal, pieces, split, texts};

verus! {

/// The value of a hexadecimal digit.
pub open spec fn hex_value(c: char) -> Option<nat> {
    if '0' <= c <= '9' {
        Some((c as int - '0' as int) as nat)
    } else if 'a' <= c <= 'f' {
        Some((c as int - 'a' as int + 10) as nat)
    } else if 'A' <= c <= 'F' {
        Some((c as int - 'A' as int + 10) as nat)
    } else {
        None
    }
}

/// The number that hexadecimal digits stand for.
pub open spec fn hex_number(s: Seq<char>) -> nat
    decreases s.len(),
{
    if s.len() == 0 {
        0
    } else {
        hex_number(s.drop_last()) * 16 + hex_value(s.last()).unwrap_or(0)
    }
}

/// The number of a group: one to four hexadecimal digits.
pub open spec fn group_number(s: Seq<char>) -> Option<nat> {
    if 1 <= s.len() <= 4 && (forall|i: int|
        0 <= i < s.len() ==> hex_value(#[trigger] s[i]) is Some) {
        Some(hex_number(s))
    } else {
        None
    }
}

/// The number of one part of an IPv4 address: one to three decimal digits, at most 255, and no 0
/// before other digits.
pub open spec fn octet_number(s: Seq<char>) -> Option<nat> {
    if 1 <= s.len() <= 3 && all_digits(s) && (s.len() == 1 || s[0] != '0') && number_of(s) <= 255 {
        Some(number_of(s))
    } else {
        None
    }
}

/// The octets of an IPv4 address: four parts between dots.
pub open spec fn ipv4_octets(s: Seq<char>) -> Option<Seq<u8>> {
    let parts = pieces(s, '.');
    if parts.len() == 4 && (forall|i: int|
        0 <= i < 4 ==> octet_number(#[trigger] parts[i]) is Some) {
        Some(Seq::new(4, |i: int| octet_number(parts[i])->0 as u8))
    } else {
        None
    }
}

/// The octets of groups; the last of them may be an IPv4 address where `v4_last` says so.
pub open spec fn group_octets(parts: Seq<Seq<char>>, v4_last: bool) -> Option<Seq<u8>>
    decreases parts.len(),
{
    if parts.len() == 0 {
        Some(Seq::empty())
    } else {
        match group_octets(parts.drop_last(), false) {
            None => None,
            Some(front) => if group_number(parts.last()) is Some {
                Some(front + u16_bytes(group_number(parts.last())->0 as u16))
            } else if v4_last && ipv4_octets(parts.last()) is Some {
                Some(front + ipv4_octets(parts.last())->0)
            } else {
                None
            },
        }
    }
}

/// The octets of the text on one side of `::`, or of a text without it. No text is no groups.
pub open spec fn side_octets(s: Seq<char>, v4_last: bool) -> Option<Seq<u8>> {
    if s.len() == 0 {
        Some(Seq::empty())
    } else {
        group_octets(pieces(s, ':'), v4_last)
    }
}

/// Where `::` first occurs in a text, from a position on; the length of the text if it does not.
pub open spec fn gap_at(s: Seq<char>, from: int) -> int
    decreases s.len() - from,
{
    if from < 0 || from + 1 >= s.len() {
        s.len() as int
    } else if s[from] == ':' && s[from + 1] == ':' {
        from
    } else {
        gap_at(s, from + 1)
    }
}

/// The octets of the IPv6 address that a text stands for.
pub open spec fn ipv6_octets(s: Seq<char>) -> Option<Seq<u8>> {
    let gap = gap_at(s, 0);
    if gap == s.len() {
        match side_octets(s, true) {
            Some(octets) => if octets.len() == 16 {
                Some(octets)
            } else {
                None
            },
            None => None,
        }
    } else {
        match (side_octets(s.take(gap), false), side_octets(s.skip(gap + 2), true)) {
            (Some(head), Some(tail)) => if head.len() + tail.len() <= 14 {
                Some(head + Seq::new((16 - head.len() - tail.len()) as nat, |i: int| 0u8) + tail)
            } else {
                None
            },
            _ => None,
        }
    }
}

/// The number of a group.
fn parse_group(s: &str) -> (r: Option<u16>)
    ensures
        r is Some <==> group_number(s@) is Some,
        r matches Some(n) ==> group_number(s@) == Some(n as nat),
{
    let chars = chars_of(s);
    if chars.len() == 0 || chars.len() > 4 {
        return None;
    }
    let mut value: u32 = 0;
    let mut i: usize = 0;
    assert(s@.take(0) =~= Seq::<char>::empty());
    while i < chars.len()
        invariant
            i <= chars.len() <= 4,
            chars@ == s@,
            forall|k: int| 0 <= k < i ==> hex_value(#[trigger] s@[k]) is Some,
            value == hex_number(s@.take(i as int)),
            i == 0 ==> value == 0,
            i <= 1 ==> value < 0x10,
            i <= 2 ==> value < 0x100,
            i <= 3 ==> value < 0x1000,
            value < 0x10000,
        decreases chars.len() - i,
    {
        let c: char = chars[i];
        let digit: u32 = if '0' <= c && c <= '9' {
            c as u32 - '0' as u32
        } else if 'a' <= c && c <= 'f' {
            c as u32 - 'a' as u32 + 10
        } else if 'A' <= c && c <= 'F' {
            c as u32 - 'A' as u32 + 10
        } else {
            assert(hex_value(s@[i as int]) is None);
            return None;
        };
        assert(s@.take(i + 1).drop_last() =~= s@.take(i as int));
        value = value * 16 + digit;
        i = i + 1;
    }
    assert(s@.take(i as int) =~= s@);
    Some(value as u16)
}

/// The number of one part of an IPv4 address.
fn parse_octet(s: &str) -> (r: Option<u8>)
    ensures
        r is Some <==> octet_number(s@) is Some,
        r matches Some(n) ==> octet_number(s@) == Some(n as nat),
{
    let chars = chars_of(s);
    if chars.len() == 0 || chars.len() > 3 {
        return None;
    }
    if chars[0] == '+' {
        assert(digit_value(s@[0]) is None);
        return None;
    }
    if chars.len() > 1 && chars[0] == '0' {
        return None;
    }
    match parse_decimal(s, 255) {
        None => None,
        Some(n) => Some(n as u8),
    }
}

/// The octets of an IPv4 address.
fn parse_ipv4(s: &str) -> (r: Option<Vec<u8>>)
    ensures
        r is Some <==> ipv4_octets(s@) is Some,
        r matches Some(v) ==> ipv4_octets(s@) == Some(v@),
{
    let parts = split(s, '.');
    let ghost all = texts(parts@);
    if parts.len() != 4 {
        return None;
    }
    let mut out: Vec<u8> = Vec::new();
    let mut i: usize = 0;
    while i < 4
        invariant
            i <= 4,
            parts@.len() == 4,
            all == texts(parts@),
            all == pieces(s@, '.'),
            out@.len() == i,
            forall|k: int| 0 <= k < i ==> octet_number(#[trigger] all[k]) == Some(out@[k] as nat),
        decreases 4 - i,
    {
        assert(all[i as int] == parts@[i as int]@);
        match parse_octet(parts[i]) {
            None => {
                return None;
            },
            Some(n) => {
                out.push(n);
            },
        }
        i = i + 1;
    }
    assert(out@ =~= Seq::new(4, |k: int| octet_number(all[k])->0 as u8));
    Some(out)
}

/// Groups that do not stand for octets do not do so with more groups behind them.
proof fn lemma_groups_fail(parts: Seq<Seq<char>>, n: int, v4_last: bool)
    requires
        0 <= n < parts.len(),
        group_octets(parts.take(n), false) is None,
    ensures
        group_octets(parts, v4_last) is None,
    decreases parts.len(),
{
    let front = parts.drop_last();
    if n == front.len() {
        assert(parts.take(n) =~= front);
    } else {
        assert(front.take(n) =~= parts.take(n));
        lemma_groups_fail(front, n, false);
    }
}

/// The octets of the text on one side of `::`, or of a text without it.
fn parse_side(s: &str, v4_last: bool) -> (r: Option<Vec<u8>>)
    ensures
        r is Some <==> side_octets(s@, v4_last) is Some,
        r matches Some(v) ==> side_octets(s@, v4_last) == Some(v@),
{
    let mut out: Vec<u8> = Vec::new();
    if s.is_empty() {
        assert(out@ =~= Seq::<u8>::empty());
        return Some(out);
    }
    let parts = split(s, ':');
    let ghost all = texts(parts@);
    let mut i: usize = 0;
    assert(all.take(0) =~= Seq::<Seq<char>>::empty());
    while i < parts.len()
        invariant
            i <= parts@.len(),
            all == texts(parts@),
            all == pieces(s@, ':'),
            s@.len() > 0,
            i < parts@.len() || !v4_last ==> group_octets(all.take(i as int), false) == Some(out@),
            i == parts@.len() ==> group_octets(all, v4_last) == Some(out@),
        decreases parts@.len() - i,
    {
        let part = parts[i];
        let ghost before = out@;
        let ghost now = all.take(i + 1);
        let last: bool = i + 1 == parts.len();
        proof {
            assert(all[i as int] == part@);
            assert(now.drop_last() =~= all.take(i as int));
            assert(now.last() == part@);
            if last {
                assert(now =~= all);
            }
        }
        match parse_group(part) {
            Some(n) => {
                append_u16(&mut out, n);
            },
            None => {
                if !(last && v4_last) {
                    proof {
                        assert(group_octets(now, false) is None);
                        if last {
                            assert(group_octets(all, v4_last) is None);
                        } else {
                            lemma_groups_fail(all, i + 1, v4_last);
                        }
                    }
                    return None;
                }
                match parse_ipv4(part) {
                    None => {
                        return None;
                    },
                    Some(v) => {
                        let mut v = v;
                        out.append(&mut v);
                    },
                }
            },
        }
        i = i + 1;
    }
    Some(out)
}

/// Where `::` first occurs in a text; the length of the text if it does not.
fn find_gap(chars: &Vec<char>) -> (r: usize)
    ensures
        r == gap_at(chars@, 0),
        r < chars@.len() ==> r + 2 <= chars@.len(),
        r <= chars@.len(),
{
    let mut i: usize = 0;
    while i < chars.len() && i + 1 < chars.len()
        invariant
            i <= chars@.len(),
            gap_at(chars@, 0) == gap_at(chars@, i as int),
        decreases chars@.len() - i,
    {
        if chars[i] == ':' && chars[i + 1] == ':' {
            return i;
        }
        i = i + 1;
    }
    chars.len()
}

/// The IPv6 address that a text stands for.
pub fn parse_ipv6(s: &str) -> (r: Option<Ipv6Addr>)
    ensures
        r is Some <==> ipv6_octets(s@) is Some,
        r matches Some(a) ==> ipv6_octets(s@) == Some(a@),
{
    let chars = chars_of(s);
    let gap: usize = find_gap(&chars);
    let mut octets: [u8; 16] = [0u8; 16];
    if gap == chars.len() {
        match parse_side(s, true) {
            None => None,
            Some(all) => {
                if all.len() != 16 {
                    return None;
                }
                let mut i: usize = 0;
                while i < 16
                    invariant
                        i <= 16,
                        all@.len() == 16,
                        forall|k: int| 0 <= k < i ==> octets@[k] == all@[k],
                    decreases 16 - i,
                {
                    octets[i] = all[i];
                    i = i + 1;
                }
                let addr = Ipv6Addr { octets };
                assert(addr@ =~= all@);
                Some(addr)
            },
        }
    } else {
        let before = s.substring_char(0, gap);
        let behind = s.substring_char(gap + 2, chars.len());
        assert(before@ =~= s@.take(gap as int));
        assert(behind@ =~= s@.skip(gap + 2));
        match (parse_side(before, false), parse_side(behind, true)) {
            (Some(head), Some(tail)) => {
                if head.len() > 14 || tail.len() > 14 - head.len() {
                    return None;
                }
                let h: usize = head.len();
                let t: usize = tail.len();
                let mut i: usize = 0;
                while i < 16
                    invariant
                        i <= 16,
                        h == head@.len(),
                        t == tail@.len(),
                        h + t <= 14,
                        forall|k: int|
                            0 <= k < i ==> octets@[k] == (if k < h {
                                head@[k]
                            } else if k < 16 - t {
                                0
                            } else {
                                tail@[k - (16 - t)]
                            }),
                    decreases 16 - i,
                {
                    octets[i] = if i < h {
                        head[i]
                    } else if i < 16 - t {
                        0
                    } else {
                        tail[i - (16 - t)]
                    };
                    i = i + 1;
                }
                let addr = Ipv6Addr { octets };
                assert(addr@ =~= head@ + Seq::new((16 - h - t) as nat, |i: int| 0u8) + tail@);
                Some(addr)
            },
            _ => None,
        }
    }
}

} // verus!
