//! Which texts are blocks, and which blocks they are.

use vstd::prelude::*;
use crate::block::{all_items, bit, block_of, blocks_of, egress_from, law_masked_bits, masked};
use crate::block::{prefixes, usable, BlockFault, Ipv6Block, Prefix};
use crate::digits::{is_number, is_numeral, law_numbers_are_read, law_numerals_are_read};
use crate::digits::lemma_numeral_digits;
use crate::ipv6_laws::{is_address, law_addresses_are_read, lemma_address_chars};
use crate::ipv6_text::ipv6_octets;
use crate::text::{decimal, digit_value, first_at, list_items};
use crate::text_laws::{bare, blank, law_first_at, law_trimming, law_white_space, white};
use crate::written::{address_text, decimal_text, law_addresses_read_back, lemma_first_at, plain, Form};

verus! {

/// A text with white space before and behind it.
pub open spec fn padded(before: Seq<char>, s: Seq<char>, behind: Seq<char>) -> Seq<char> {
    before + s + behind
}

/// A block as it is written: the text of an address, a `/`, and the text of a length.
pub open spec fn slashed(address: Seq<char>, length: Seq<char>) -> Seq<char> {
    address.push('/') + length
}

/// How a text is divided at its first `/`.
proof fn lemma_divided(address: Seq<char>, length: Seq<char>)
    requires
        !address.contains('/'),
    ensures
        ({
            let s = slashed(address, length);
            &&& first_at(s, '/', 0) == address.len()
            &&& s.take(address.len() as int) == address
            &&& s.skip(address.len() as int + 1) == length
            &&& address.len() < s.len()
        }),
{
    let s = slashed(address, length);
    let k = address.len() as int;
    assert forall|i: int| 0 <= i < k implies #[trigger] s[i] != '/' by {
        assert(s[i] == address[i]);
        assert(address.contains(address[i]));
    }
    lemma_first_at(s, '/', 0, k);
    assert(s.take(k) =~= address);
    assert(s.skip(k + 1) =~= length);
}

/// The texts of addresses and of numbers have no white space at their ends, and those of addresses no
/// `/`.
proof fn lemma_address_bare(s: Seq<char>, octets: Seq<u8>)
    requires
        is_address(s, octets),
    ensures
        bare(s),
        !s.contains('/'),
{
    lemma_address_chars(s, octets);
    law_white_space(s[0]);
    law_white_space(s.last());
    assert(plain(s[0]) && plain(s[s.len() - 1]));
    assert forall|i: int| 0 <= i < s.len() implies s[i] != '/' by {
        assert(plain(s[i]));
    }
}

proof fn lemma_number_bare(s: Seq<char>, n: nat)
    requires
        is_number(s, n),
    ensures
        bare(s),
{
    let digits = if is_numeral(s, n) {
        s
    } else {
        s.drop_first()
    };
    lemma_numeral_digits(digits, n);
    assert(digit_value(digits[digits.len() - 1]) is Some);
    assert(digit_value(digits[0]) is Some);
    assert(s.last() == digits[digits.len() - 1]);
    law_white_space(s[0]);
    law_white_space(s.last());
}

proof fn lemma_padded_no_slash(before: Seq<char>, s: Seq<char>, behind: Seq<char>)
    requires
        blank(before),
        blank(behind),
        !s.contains('/'),
    ensures
        !padded(before, s, behind).contains('/'),
{
    let all = padded(before, s, behind);
    if all.contains('/') {
        let i = choose|i: int| 0 <= i < all.len() && all[i] == '/';
        law_white_space('/');
        if i < before.len() {
            assert(white().contains(before[i]));
        } else if i < before.len() + s.len() {
            assert(s[i - before.len()] == '/');
        } else {
            assert(white().contains(behind[i - before.len() - s.len()]));
        }
    }
}

/// Every address with every length of a prefix up to 128 is read as the block of just that length,
/// whose network agrees with the address in the bits of the prefix and has no bit set behind them.
/// White space around the address and around the length changes nothing, nor does it matter in which
/// of the ways the address and the length are written. A length above 128 that is a number of 8 bits
/// is refused as too long.
pub proof fn law_blocks_are_read(
    pad: (Seq<char>, Seq<char>, Seq<char>, Seq<char>),
    address: Seq<char>,
    octets: Seq<u8>,
    length: Seq<char>,
    n: nat,
)
    requires
        blank(pad.0),
        blank(pad.1),
        blank(pad.2),
        blank(pad.3),
        is_address(address, octets),
        is_number(length, n),
    ensures
        ({
            let s = slashed(padded(pad.0, address, pad.1), padded(pad.2, length, pad.3));
            &&& n <= 128 ==> {
                &&& block_of(s) is Ok
                &&& block_of(s)->Ok_0.len == n
                &&& block_of(s)->Ok_0.network == masked(octets, n as int)
                &&& block_of(s)->Ok_0.network.len() == 16
                &&& forall|i: int|
                    0 <= i < 128 ==> #[trigger] bit(block_of(s)->Ok_0.network, i) == (i < n && bit(
                        octets,
                        i,
                    ))
            }
            &&& 128 < n <= 255 ==> block_of(s) == Err::<Prefix, BlockFault>(
                BlockFault::PrefixTooLong(s),
            )
        }),
{
    let a = padded(pad.0, address, pad.1);
    let l = padded(pad.2, length, pad.3);
    lemma_address_bare(address, octets);
    lemma_number_bare(length, n);
    law_trimming(pad.0, address, pad.1);
    law_trimming(pad.2, length, pad.3);
    lemma_padded_no_slash(pad.0, address, pad.1);
    lemma_divided(a, l);
    law_addresses_are_read(address, octets);
    law_numbers_are_read(length, n, 255);
    if n <= 128 {
        assert forall|i: int| 0 <= i < 128 implies #[trigger] bit(masked(octets, n as int), i) == (i
            < n && bit(octets, i)) by {
            law_masked_bits(octets, n as int, i);
        }
    }
}

/// Every address in every form, with every length in decimal digits, is read as the block of just
/// that length.
pub proof fn law_every_block_is_read(octets: Seq<u8>, form: Form, len: nat)
    requires
        octets.len() == 16,
        form.fits(octets),
        len <= 128,
    ensures
        block_of(slashed(address_text(octets, form), decimal_text(len))) == Ok::<Prefix, BlockFault>(
            Prefix { network: masked(octets, len as int), len: len as int },
        ),
        forall|i: int|
            0 <= i < 128 ==> #[trigger] bit(masked(octets, len as int), i) == (i < len && bit(
                octets,
                i,
            )),
{
    let none = Seq::<char>::empty();
    let a = address_text(octets, form);
    let l = decimal_text(len);
    law_addresses_read_back(octets, form);
    law_addresses_are_read(a, octets);
    law_numerals_are_read(len, 255);
    law_blocks_are_read((none, none, none, none), a, octets, l, len);
    assert(padded(none, a, none) =~= a);
    assert(padded(none, l, none) =~= l);
}

/// A text that is not a block is refused for the first thing that is wrong with it: that it has no
/// `/`; that what stands before the first one is not an address; that what stands behind it is not a
/// number of 8 bits. What is told is just that text, as it stands there.
pub proof fn law_no_blocks(
    pad: (Seq<char>, Seq<char>, Seq<char>, Seq<char>),
    address: Seq<char>,
    octets: Seq<u8>,
    length: Seq<char>,
)
    requires
        blank(pad.0),
        blank(pad.1),
        blank(pad.2),
        blank(pad.3),
        bare(address),
        bare(length),
        !address.contains('/'),
    ensures
        ({
            let a = padded(pad.0, address, pad.1);
            let l = padded(pad.2, length, pad.3);
            let s = slashed(a, l);
            &&& block_of(a) == Err::<Prefix, BlockFault>(BlockFault::MissingSlash(a))
            &&& (forall|o: Seq<u8>| !(#[trigger] is_address(address, o))) ==> block_of(s) == Err::<
                Prefix,
                BlockFault,
            >(BlockFault::InvalidAddress(a))
            &&& is_address(address, octets) && (forall|n: nat|
                n <= 255 ==> !(#[trigger] is_number(length, n))) ==> block_of(s) == Err::<
                Prefix,
                BlockFault,
            >(BlockFault::InvalidPrefix(l))
        }),
{
    let a = padded(pad.0, address, pad.1);
    let l = padded(pad.2, length, pad.3);
    lemma_padded_no_slash(pad.0, address, pad.1);
    law_first_at(a, '/');
    if first_at(a, '/', 0) < a.len() {
        assert(a.contains(a[first_at(a, '/', 0)]));
    }
    law_trimming(pad.0, address, pad.1);
    law_trimming(pad.2, length, pad.3);
    lemma_divided(a, l);
    if ipv6_octets(address) is Some {
        law_addresses_are_read(address, ipv6_octets(address)->0);
    }
    law_addresses_are_read(address, octets);
    if decimal(length, 255) is Some {
        law_numbers_are_read(length, decimal(length, 255)->0, 255);
    }
}

/// Lists of blocks are read item by item, in order; and where one is refused, it is the first that
/// is not a block.
pub proof fn law_every_item_is_read(items: Seq<Seq<char>>)
    ensures
        match blocks_of(items) {
            Ok(v) => v.len() == items.len() && forall|i: int|
                0 <= i < items.len() ==> block_of(#[trigger] items[i]) == Ok::<Prefix, BlockFault>(
                    v[i],
                ),
            Err(e) => exists|k: int|
                0 <= k < items.len() && block_of(#[trigger] items[k]) == Err::<Prefix, BlockFault>(e)
                    && forall|i: int| 0 <= i < k ==> block_of(#[trigger] items[i]) is Ok,
        },
    decreases items.len(),
{
    if items.len() > 0 {
        let n = items.len() - 1;
        let front = items.drop_last();
        law_every_item_is_read(front);
        match blocks_of(front) {
            Ok(v) => {
                assert forall|i: int| 0 <= i < n implies block_of(#[trigger] items[i]) == Ok::<
                    Prefix,
                    BlockFault,
                >(v[i]) by {
                    assert(front[i] == items[i]);
                }
                assert(block_of(items[n]) is Ok || block_of(items[n]) is Err);
            },
            Err(e) => {
                let k = choose|k: int|
                    0 <= k < front.len() && block_of(#[trigger] front[k]) == Err::<
                        Prefix,
                        BlockFault,
                    >(e) && forall|i: int| 0 <= i < k ==> block_of(#[trigger] front[i]) is Ok;
                assert(block_of(items[k]) == Err::<Prefix, BlockFault>(e));
                assert forall|i: int| 0 <= i < k implies block_of(#[trigger] items[i]) is Ok by {
                    assert(block_of(front[i]) is Ok);
                }
            },
        }
    }
}

/// The items of lists are those of the first, then those of the second, and so on; none is left out.
pub proof fn law_items_of_lists(lists: Seq<Seq<char>>, list: Seq<char>)
    ensures
        all_items(Seq::empty()).len() == 0,
        all_items(lists.push(list)) == all_items(lists) + list_items(list),
{
    assert(lists.push(list).drop_last() =~= lists);
}

/// A random source is a usable address of one of the blocks, and there is none only where there are
/// no blocks.
pub proof fn law_random_sources_come_from_blocks(blocks: Seq<Prefix>, ip: Seq<u8>)
    ensures
        egress_from(blocks, None) <==> blocks.len() == 0,
        egress_from(blocks, Some(ip)) <==> exists|k: int|
            0 <= k < blocks.len() && usable(#[trigger] blocks[k], ip),
{
}

/// The words for a text that is not a block end with the whole of the text that they are about, and
/// differ by what is wrong with it.
pub proof fn law_words_name_the_text(text: Seq<char>)
    ensures
        ({
            let a = BlockFault::MissingSlash(text).words();
            let b = BlockFault::InvalidAddress(text).words();
            let c = BlockFault::InvalidPrefix(text).words();
            let d = BlockFault::PrefixTooLong(text).words();
            &&& a.skip(a.len() - text.len()) == text && a.len() == text.len() + 20
            &&& b.skip(b.len() - text.len()) == text && b.len() == text.len() + 12
            &&& c.skip(c.len() - text.len()) == text && c.len() == text.len() + 8
            &&& d.skip(d.len() - text.len()) == text && d.len() == text.len() + 14
        }),
{
    reveal_strlit("IPv6 块格式错误（缺少 '/'）: ");
    reveal_strlit("非法 IPv6 地址: ");
    reveal_strlit("非法前缀长度: ");
    reveal_strlit("前缀长度不能大于 128: ");
    let a = BlockFault::MissingSlash(text).words();
    let b = BlockFault::InvalidAddress(text).words();
    let c = BlockFault::InvalidPrefix(text).words();
    let d = BlockFault::PrefixTooLong(text).words();
    assert(a.skip(a.len() - text.len()) =~= text);
    assert(b.skip(b.len() - text.len()) =~= text);
    assert(c.skip(c.len() - text.len()) =~= text);
    assert(d.skip(d.len() - text.len()) =~= text);
}

/// Two to a power below 8.
pub open spec fn power(n: int) -> int {
    if n <= 0 {
        1
    } else if n == 1 {
        2
    } else if n == 2 {
        4
    } else if n == 3 {
        8
    } else if n == 4 {
        16
    } else if n == 5 {
        32
    } else if n == 6 {
        64
    } else {
        128
    }
}

/// The bits of an address are those of its octets, one octet after the other, and of each octet the
/// most significant first.
pub proof fn law_bits(octets: Seq<u8>, i: int)
    requires
        octets.len() == 16,
        0 <= i < 128,
    ensures
        bit(octets, i) <==> octets[i / 8] as int / power(7 - i % 8) % 2 == 1,
{
    let x = octets[i / 8];
    assert((x >> 0u8) & 1 == (x / 1) % 2 && (x >> 1u8) & 1 == (x / 2) % 2 && (x >> 2u8) & 1 == (x / 4)
        % 2 && (x >> 3u8) & 1 == (x / 8) % 2 && (x >> 4u8) & 1 == (x / 16) % 2 && (x >> 5u8) & 1 == (x
        / 32) % 2 && (x >> 6u8) & 1 == (x / 64) % 2 && (x >> 7u8) & 1 == (x / 128) % 2)
        by (bit_vector);
    let s = 7 - i % 8;
    assert(0 <= s < 8);
}

/// Masking leaves the octets within the prefix as they are, takes from the octet in which the prefix
/// ends what is less than the least bit of the prefix, and makes the others 0.
pub proof fn law_masked_octets(octets: Seq<u8>, len: int, k: int)
    requires
        octets.len() == 16,
        0 <= k < 16,
    ensures
        masked(octets, len).len() == 16,
        len >= 8 * k + 8 ==> masked(octets, len)[k] == octets[k],
        len <= 8 * k ==> masked(octets, len)[k] == 0,
        8 * k < len < 8 * k + 8 ==> masked(octets, len)[k] == octets[k] as int / power(
            8 * k + 8 - len,
        ) * power(8 * k + 8 - len),
{
    let a = octets[k];
    assert(a & 0xff == a && a & 0 == 0) by (bit_vector);
    assert(a & (0xffu8 << 1u8) == (a / 2) * 2 && a & (0xffu8 << 2u8) == (a / 4) * 4 && a & (0xffu8
        << 3u8) == (a / 8) * 8 && a & (0xffu8 << 4u8) == (a / 16) * 16 && a & (0xffu8 << 5u8) == (a
        / 32) * 32 && a & (0xffu8 << 6u8) == (a / 64) * 64 && a & (0xffu8 << 7u8) == (a / 128) * 128)
        by (bit_vector);
    let h = 8 * k + 8 - len;
    if 8 * k < len < 8 * k + 8 {
        assert(0 < h < 8);
    }
}

/// What blocks stand for is what their fields hold.
pub proof fn law_blocks_are_their_fields(b: Ipv6Block, v: Seq<Ipv6Block>, i: int)
    ensures
        b@.network == b.network.octets@,
        b@.len == b.prefix_len,
        prefixes(v).len() == v.len(),
        0 <= i < v.len() ==> prefixes(v)[i] == v[i]@,
{
}

} // verus!
