//! Blocks of IPv6 addresses, and random addresses out of them.

use vstd::prelude::*;
use vstd::string::{StrSliceExecFns, StringExecFns};
use crate::addr::Ipv6Addr;
use crate::ipv6_text::{ipv6_octets, parse_ipv6};
use crate::random::{random_below, random_byte, thread_rng};
use crate::text::{chars_of, decimal, find_from, first_at, list_items, parse_decimal, split_list};
use crate::text::{law_comma_joins_lists, strings, trim, trimmed};

verus! {

/// A block of IPv6 addresses: those that agree with `network` in the first `prefix_len` bits.
#[derive(Clone, Copy, Debug, PartialEq, Eq)]
pub struct Ipv6Block {
    pub network: Ipv6Addr,
    pub prefix_len: u8,
}

/// What an [`Ipv6Block`] stands for.
#[verifier::ext_equal]
pub struct Prefix {
    pub network: Seq<u8>,
    pub len: int,
}

impl View for Ipv6Block {
    type V = Prefix;

    open spec fn view(&self) -> Prefix {
        Prefix { network: self.network@, len: self.prefix_len as int }
    }
}

/// Bit `i` of an address, counted from its first bit.
pub open spec fn bit(octets: Seq<u8>, i: int) -> bool {
    (octets[i / 8] >> ((7 - i % 8) as u8)) & 1 == 1
}

/// The bits of octet `k` that belong to a prefix of `len` bits.
pub open spec fn octet_mask(len: int, k: int) -> u8 {
    if len >= 8 * k + 8 {
        0xff
    } else if len <= 8 * k {
        0
    } else {
        0xffu8 << ((8 * k + 8 - len) as u8)
    }
}

/// An address with all bits behind the first `len` set to 0.
pub open spec fn masked(octets: Seq<u8>, len: int) -> Seq<u8> {
    Seq::new(16, |k: int| octets[k] & octet_mask(len, k))
}

/// Whether an address is one of a block: it agrees with the network in every bit of the prefix.
pub open spec fn in_block(b: Prefix, ip: Seq<u8>) -> bool {
    ip.len() == 16 && forall|i: int|
        0 <= i < 128 && i < b.len ==> #[trigger] bit(ip, i) == bit(b.network, i)
}

/// Whether some bit behind the prefix is set.
pub open spec fn host_set(len: int, ip: Seq<u8>) -> bool {
    exists|i: int| 0 <= i < 128 && len <= i && #[trigger] bit(ip, i)
}

/// Whether an address of a block can be used as a source: not one whose bits behind the prefix are
/// all 0. A block with nothing behind the prefix is one address, which can be used.
pub open spec fn usable(b: Prefix, ip: Seq<u8>) -> bool {
    &&& in_block(b, ip)
    &&& b.len < 128 ==> host_set(b.len, ip)
    &&& b.len >= 128 ==> ip == b.network
}

/// The bits of octet `k` that belong to the prefix.
fn mask_of(prefix_len: u8, k: usize) -> (r: u8)
    requires
        k < 16,
    ensures
        r == octet_mask(prefix_len as int, k as int),
{
    let len: usize = prefix_len as usize;
    if len >= 8 * k + 8 {
        0xff
    } else if len <= 8 * k {
        0
    } else {
        let shift: u8 = (8 * k + 8 - len) as u8;
        0xffu8 << shift
    }
}

/// The address with all bits behind the first `prefix_len` set to 0.
pub fn mask_ipv6(addr: Ipv6Addr, prefix_len: u8) -> (r: Ipv6Addr)
    ensures
        r@ == masked(addr@, prefix_len as int),
        forall|i: int|
            0 <= i < 128 ==> #[trigger] bit(r@, i) == (i < prefix_len && bit(addr@, i)),
{
    let mut octets: [u8; 16] = [0u8; 16];
    let mut k: usize = 0;
    while k < 16
        invariant
            k <= 16,
            forall|j: int|
                0 <= j < k ==> octets@[j] == addr@[j] & octet_mask(prefix_len as int, j),
        decreases 16 - k,
    {
        octets[k] = addr.octets[k] & mask_of(prefix_len, k);
        k = k + 1;
    }
    let r = Ipv6Addr { octets };
    assert(r@ =~= masked(addr@, prefix_len as int));
    proof {
        assert forall|i: int| 0 <= i < 128 implies #[trigger] bit(r@, i) == (i < prefix_len && bit(
            addr@,
            i,
        )) by {
            law_masked_bits(addr@, prefix_len as int, i);
        }
    }
    r
}

/// Which bits a mask keeps and which it clears.
proof fn lemma_mix_bit(a: u8, b: u8, len: int, i: int)
    requires
        0 <= i < 128,
        0 <= len,
    ensures
        ({
            let m = octet_mask(len, i / 8);
            let s = (7 - i % 8) as u8;
            &&& ((a & m) >> s) & 1 == (if i < len {
                (a >> s) & 1
            } else {
                0u8
            })
            &&& (((a & m) | (b & !m)) >> s) & 1 == (if i < len {
                (a >> s) & 1
            } else {
                (b >> s) & 1
            })
        }),
{
    let m = octet_mask(len, i / 8);
    let s = (7 - i % 8) as u8;
    if len >= 8 * (i / 8) + 8 {
        assert(((a & 0xff) >> s) & 1 == (a >> s) & 1) by (bit_vector);
        assert((((a & 0xff) | (b & !0xffu8)) >> s) & 1 == (a >> s) & 1) by (bit_vector);
    } else if len <= 8 * (i / 8) {
        assert(((a & 0) >> s) & 1 == 0) by (bit_vector);
        assert((((a & 0) | (b & !0u8)) >> s) & 1 == (b >> s) & 1) by (bit_vector);
    } else {
        let h = (8 * (i / 8) + 8 - len) as u8;
        assert(0 < h < 8 && s < 8);
        assert(i < len <==> s >= h);
        assert(((a & (0xffu8 << h)) >> s) & 1 == (if s >= h { (a >> s) & 1 } else { 0 }))
            by (bit_vector)
            requires
                0 < h < 8,
                s < 8,
        ;
        assert((((a & (0xffu8 << h)) | (b & !(0xffu8 << h))) >> s) & 1 == (if s >= h {
            (a >> s) & 1
        } else {
            (b >> s) & 1
        })) by (bit_vector)
            requires
                0 < h < 8,
                s < 8,
        ;
    }
}

/// Masking keeps the bits of the prefix and clears the others.
pub proof fn law_masked_bits(octets: Seq<u8>, len: int, i: int)
    requires
        octets.len() == 16,
        0 <= i < 128,
        0 <= len,
    ensures
        bit(masked(octets, len), i) == (i < len && bit(octets, i)),
{
    lemma_mix_bit(octets[i / 8], 0, len, i);
}

/// Masking twice is masking once.
pub proof fn law_masked_twice(octets: Seq<u8>, len: int)
    requires
        octets.len() == 16,
    ensures
        masked(masked(octets, len), len) == masked(octets, len),
{
    let once = masked(octets, len);
    assert forall|k: int| 0 <= k < 16 implies masked(once, len)[k] == once[k] by {
        let a = octets[k];
        let m = octet_mask(len, k);
        assert((a & m) & m == a & m) by (bit_vector);
    }
    assert(masked(once, len) =~= once);
}

/// Why a text is not a block.
#[derive(Debug, PartialEq, Eq)]
pub enum BlockError {
    /// The text has no `/`.
    MissingSlash(String),
    /// What stands before the `/` is not an IPv6 address.
    InvalidAddress(String),
    /// What stands behind the `/` is not a number of 8 bits.
    InvalidPrefix(String),
    /// The prefix has more bits than an address.
    PrefixTooLong(String),
}

/// What a [`BlockError`] stands for.
#[verifier::ext_equal]
pub enum BlockFault {
    MissingSlash(Seq<char>),
    InvalidAddress(Seq<char>),
    InvalidPrefix(Seq<char>),
    PrefixTooLong(Seq<char>),
}

impl View for BlockError {
    type V = BlockFault;

    open spec fn view(&self) -> BlockFault {
        match *self {
            BlockError::MissingSlash(t) => BlockFault::MissingSlash(t@),
            BlockError::InvalidAddress(t) => BlockFault::InvalidAddress(t@),
            BlockError::InvalidPrefix(t) => BlockFault::InvalidPrefix(t@),
            BlockError::PrefixTooLong(t) => BlockFault::PrefixTooLong(t@),
        }
    }
}

impl BlockFault {
    /// The words for a fault, the text it is about at their end.
    pub open spec fn words(self) -> Seq<char> {
        match self {
            BlockFault::MissingSlash(t) => "IPv6 块格式错误（缺少 '/'）: "@ + t,
            BlockFault::InvalidAddress(t) => "非法 IPv6 地址: "@ + t,
            BlockFault::InvalidPrefix(t) => "非法前缀长度: "@ + t,
            BlockFault::PrefixTooLong(t) => "前缀长度不能大于 128: "@ + t,
        }
    }
}

impl BlockError {
    /// The words for this error, the text it is about at their end.
    pub fn message(&self) -> (r: String)
        ensures
            r@ == self@.words(),
    {
        match self {
            BlockError::MissingSlash(t) => "IPv6 块格式错误（缺少 '/'）: ".to_owned().concat(
                t.as_str(),
            ),
            BlockError::InvalidAddress(t) => "非法 IPv6 地址: ".to_owned().concat(t.as_str()),
            BlockError::InvalidPrefix(t) => "非法前缀长度: ".to_owned().concat(t.as_str()),
            BlockError::PrefixTooLong(t) => "前缀长度不能大于 128: ".to_owned().concat(t.as_str()),
        }
    }
}

/// The block that a text stands for: an IPv6 address, a `/`, and the length of the prefix in
/// bits, at most 128. The bits behind the prefix count as 0.
pub open spec fn block_of(s: Seq<char>) -> Result<Prefix, BlockFault> {
    let slash = first_at(s, '/', 0);
    let address = s.take(slash);
    let length = s.skip(slash + 1);
    if slash == s.len() {
        Err(BlockFault::MissingSlash(s))
    } else if ipv6_octets(trimmed(address)) is None {
        Err(BlockFault::InvalidAddress(address))
    } else if decimal(trimmed(length), 255) is None {
        Err(BlockFault::InvalidPrefix(length))
    } else if decimal(trimmed(length), 255)->0 > 128 {
        Err(BlockFault::PrefixTooLong(s))
    } else {
        let len = decimal(trimmed(length), 255)->0 as int;
        Ok(Prefix { network: masked(ipv6_octets(trimmed(address))->0, len), len })
    }
}

/// Whether a result of reading a block is the one that is due.
pub open spec fn block_read(r: Result<Ipv6Block, BlockError>, due: Result<Prefix, BlockFault>) -> bool {
    match r {
        Ok(b) => due == Ok::<Prefix, BlockFault>(b@),
        Err(e) => due == Err::<Prefix, BlockFault>(e@),
    }
}

impl Ipv6Block {
    /// Reads a block from a text such as `2001:db8::/48`.
    pub fn parse(s: &str) -> (r: Result<Ipv6Block, BlockError>)
        ensures
            block_read(r, block_of(s@)),
    {
        let chars = chars_of(s);
        let slash: usize = find_from(&chars, '/', 0);
        if slash == chars.len() {
            return Err(BlockError::MissingSlash(s.to_owned()));
        }
        let address = s.substring_char(0, slash);
        let length = s.substring_char(slash + 1, chars.len());
        assert(address@ =~= s@.take(slash as int));
        assert(length@ =~= s@.skip(slash + 1));
        match parse_ipv6(trim(address)) {
            None => Err(BlockError::InvalidAddress(address.to_owned())),
            Some(network) => match parse_decimal(trim(length), 255) {
                None => Err(BlockError::InvalidPrefix(length.to_owned())),
                Some(n) => {
                    if n > 128 {
                        return Err(BlockError::PrefixTooLong(s.to_owned()));
                    }
                    let prefix_len: u8 = n as u8;
                    Ok(Ipv6Block { network: mask_ipv6(network, prefix_len), prefix_len })
                },
            },
        }
    }
}

/// The items of all lists, in order.
pub open spec fn all_items(list: Seq<Seq<char>>) -> Seq<Seq<char>>
    decreases list.len(),
{
    if list.len() == 0 {
        Seq::empty()
    } else {
        all_items(list.drop_last()) + list_items(list.last())
    }
}

/// The blocks that texts stand for, or what is wrong with the first text that is not a block.
pub open spec fn blocks_of(items: Seq<Seq<char>>) -> Result<Seq<Prefix>, BlockFault>
    decreases items.len(),
{
    if items.len() == 0 {
        Ok(Seq::empty())
    } else {
        match blocks_of(items.drop_last()) {
            Err(e) => Err(e),
            Ok(front) => match block_of(items.last()) {
                Err(e) => Err(e),
                Ok(b) => Ok(front.push(b)),
            },
        }
    }
}

/// What some blocks stand for.
pub open spec fn prefixes(blocks: Seq<Ipv6Block>) -> Seq<Prefix> {
    blocks.map_values(|b: Ipv6Block| b@)
}

/// A text that is not a block is not made up for by what comes behind it.
proof fn lemma_first_fault(items: Seq<Seq<char>>, n: int)
    requires
        0 <= n <= items.len(),
        blocks_of(items.take(n)) is Err,
    ensures
        blocks_of(items) == blocks_of(items.take(n)),
    decreases items.len(),
{
    if n == items.len() {
        assert(items.take(n) =~= items);
    } else {
        assert(items.drop_last().take(n) =~= items.take(n));
        lemma_first_fault(items.drop_last(), n);
    }
}

/// The items of the first lists come before those of the others.
proof fn lemma_items_prefix(list: Seq<Seq<char>>, n: int)
    requires
        0 <= n <= list.len(),
    ensures
        all_items(list.take(n)).len() <= all_items(list).len(),
        all_items(list).take(all_items(list.take(n)).len() as int) == all_items(list.take(n)),
    decreases list.len(),
{
    if n == list.len() {
        assert(list.take(n) =~= list);
        assert(all_items(list).take(all_items(list).len() as int) =~= all_items(list));
    } else {
        assert(list.drop_last().take(n) =~= list.take(n));
        lemma_items_prefix(list.drop_last(), n);
        let front = all_items(list.take(n));
        assert(all_items(list).take(front.len() as int) =~= all_items(list.drop_last()).take(
            front.len() as int,
        ));
    }
}

/// Reads the blocks of lists between commas. Items that are empty do not count.
pub fn parse_ipv6_blocks(list: &[String]) -> (r: Result<Vec<Ipv6Block>, BlockError>)
    ensures
        match r {
            Ok(v) => blocks_of(all_items(strings(list@))) == Ok::<Seq<Prefix>, BlockFault>(
                prefixes(v@),
            ),
            Err(e) => blocks_of(all_items(strings(list@))) == Err::<Seq<Prefix>, BlockFault>(e@),
        },
{
    let ghost lists = strings(list@);
    let mut out: Vec<Ipv6Block> = Vec::new();
    let mut i: usize = 0;
    assert(lists.take(0) =~= Seq::<Seq<char>>::empty());
    assert(prefixes(out@) =~= Seq::<Prefix>::empty());
    while i < list.len()
        invariant
            i <= list@.len(),
            lists == strings(list@),
            blocks_of(all_items(lists.take(i as int))) == Ok::<Seq<Prefix>, BlockFault>(
                prefixes(out@),
            ),
        decreases list@.len() - i,
    {
        let items = split_list(list[i].as_str());
        let ghost these = strings(items@);
        let ghost before = all_items(lists.take(i as int));
        let ghost now = before + these;
        proof {
            assert(lists.take(i + 1).drop_last() =~= lists.take(i as int));
            assert(lists.take(i + 1).last() == list@[i as int]@);
            assert(all_items(lists.take(i + 1)) == now);
            assert(before + these.take(0) =~= before);
        }
        let mut j: usize = 0;
        while j < items.len()
            invariant
                j <= items@.len(),
                i < list@.len(),
                lists == strings(list@),
                these == strings(items@),
                now == before + these,
                all_items(lists.take(i + 1)) == now,
                blocks_of(before + these.take(j as int)) == Ok::<Seq<Prefix>, BlockFault>(
                    prefixes(out@),
                ),
            decreases items@.len() - j,
        {
            let ghost done = prefixes(out@);
            let ghost upto = before + these.take(j + 1);
            proof {
                assert(these[j as int] == items@[j as int]@);
                assert(upto.drop_last() =~= before + these.take(j as int));
                assert(upto.last() == items@[j as int]@);
            }
            match Ipv6Block::parse(items[j].as_str()) {
                Ok(b) => {
                    out.push(b);
                    assert(prefixes(out@) =~= done.push(b@));
                },
                Err(e) => {
                    proof {
                        assert(now.take(upto.len() as int) =~= upto);
                        lemma_first_fault(now, upto.len() as int);
                        lemma_items_prefix(lists, i + 1);
                        lemma_first_fault(all_items(lists), now.len() as int);
                    }
                    return Err(e);
                },
            }
            j = j + 1;
        }
        assert(before + these.take(j as int) =~= now);
        i = i + 1;
    }
    assert(lists.take(i as int) =~= lists);
    Ok(out)
}

/// The address of a block that 16 drawn octets give: the bits of the prefix are those of the
/// network, the others are those drawn. Where all of these are 0 the last bit of the address is
/// set; if the prefix ends within an octet, it is the last bit of that octet instead.
pub open spec fn drawn(b: Prefix, draw: Seq<u8>) -> Seq<u8> {
    let mixed = Seq::new(
        16,
        |k: int| (b.network[k] & octet_mask(b.len, k)) | (draw[k] & !octet_mask(b.len, k)),
    );
    if b.len < 128 && host_clear(b.len, draw) {
        mixed.update(mark(b.len), mixed[mark(b.len)] | 1)
    } else {
        mixed
    }
}

/// Whether the bits behind the prefix are all 0.
pub open spec fn host_clear(len: int, octets: Seq<u8>) -> bool {
    forall|k: int| 0 <= k < 16 ==> #[trigger] octets[k] & !octet_mask(len, k) == 0
}

/// The octet whose last bit is set where nothing else is behind the prefix.
pub open spec fn mark(len: int) -> int {
    if len % 8 > 0 {
        len / 8
    } else {
        15
    }
}

impl Ipv6Block {
    /// The address of the block that 16 drawn octets give.
    pub fn ip_from(&self, draw: &[u8; 16]) -> (r: Ipv6Addr)
        ensures
            r@ == drawn(self@, draw@),
            usable(self@, r@),
    {
        let mut octets: [u8; 16] = [0u8; 16];
        let mut clear: bool = true;
        let mut k: usize = 0;
        while k < 16
            invariant
                k <= 16,
                forall|j: int|
                    0 <= j < k ==> octets@[j] == (self.network@[j] & octet_mask(
                        self.prefix_len as int,
                        j,
                    )) | (draw@[j] & !octet_mask(self.prefix_len as int, j)),
                clear == (forall|j: int|
                    0 <= j < k ==> #[trigger] draw@[j] & !octet_mask(self.prefix_len as int, j)
                        == 0),
            decreases 16 - k,
        {
            let mask: u8 = mask_of(self.prefix_len, k);
            let host: u8 = draw[k] & !mask;
            octets[k] = (self.network.octets[k] & mask) | host;
            if host != 0 {
                clear = false;
                assert(draw@[k as int] & !octet_mask(self.prefix_len as int, k as int) != 0);
            }
            k = k + 1;
        }
        if self.prefix_len < 128 && clear {
            let at: usize = if self.prefix_len % 8 > 0 {
                (self.prefix_len / 8) as usize
            } else {
                15
            };
            octets[at] = octets[at] | 1;
        }
        let r = Ipv6Addr { octets };
        assert(r@ =~= drawn(self@, draw@));
        proof {
            law_drawn_usable(self@, draw@);
        }
        r
    }

    /// A random address of the block that can be used as a source.
    pub fn random_ip(&self, rng: &mut rand::rngs::ThreadRng) -> (r: Ipv6Addr)
        ensures
            exists|draw: Seq<u8>| draw.len() == 16 && r@ == #[trigger] drawn(self@, draw),
            usable(self@, r@),
    {
        let mut draw: [u8; 16] = [0u8; 16];
        let mut k: usize = (self.prefix_len / 8) as usize;
        while k < 16
            decreases 16 - k,
        {
            draw[k] = random_byte(rng);
            k = k + 1;
        }
        assert(draw@.len() == 16);
        self.ip_from(&draw)
    }
}

/// An octet that is not 0 behind the prefix has a bit set there.
proof fn lemma_some_bit(octets: Seq<u8>, len: int, k: int)
    requires
        0 <= k < 16,
        0 <= len,
        octets[k] & !octet_mask(len, k) != 0,
    ensures
        exists|i: int| 8 * k <= i < 8 * k + 8 && len <= i && #[trigger] bit(octets, i),
{
    let x = octets[k];
    let m = octet_mask(len, k);
    let y = (0u8 & m) | (x & !m);
    assert((0u8 & m) | (x & !m) == x & !m) by (bit_vector);
    assert(y != 0 ==> (y >> 7) & 1 == 1 || (y >> 6) & 1 == 1 || (y >> 5) & 1 == 1 || (y >> 4) & 1
        == 1 || (y >> 3) & 1 == 1 || (y >> 2) & 1 == 1 || (y >> 1) & 1 == 1 || (y >> 0) & 1 == 1)
        by (bit_vector);
    assert forall|j: int| 0 <= j < 8 && #[trigger] ((y >> ((7 - j) as u8)) & 1) == 1 implies len
        <= 8 * k + j && bit(octets, 8 * k + j) by {
        let s = (7 - j) as u8;
        assert((8 * k + j) / 8 == k && (8 * k + j) % 8 == j);
        lemma_mix_bit(0, x, len, 8 * k + j);
        assert((0u8 >> s) & 1 == 0) by (bit_vector);
    }
    let j: int = if (y >> 7) & 1 == 1 {
        0
    } else if (y >> 6) & 1 == 1 {
        1
    } else if (y >> 5) & 1 == 1 {
        2
    } else if (y >> 4) & 1 == 1 {
        3
    } else if (y >> 3) & 1 == 1 {
        4
    } else if (y >> 2) & 1 == 1 {
        5
    } else if (y >> 1) & 1 == 1 {
        6
    } else {
        7
    };
    assert((y >> ((7 - j) as u8)) & 1 == 1);
    assert(bit(octets, 8 * k + j));
}

/// Whatever is drawn, the address lies in the block, some bit behind the prefix is set, and a
/// block of one address gives that address.
pub proof fn law_drawn_usable(b: Prefix, draw: Seq<u8>)
    requires
        b.network.len() == 16,
        draw.len() == 16,
        0 <= b.len,
    ensures
        usable(b, drawn(b, draw)),
{
    let r = drawn(b, draw);
    let mixed = Seq::new(
        16,
        |k: int| (b.network[k] & octet_mask(b.len, k)) | (draw[k] & !octet_mask(b.len, k)),
    );
    let marked = b.len < 128 && host_clear(b.len, draw);
    let at = mark(b.len);
    assert forall|i: int| 0 <= i < 128 && i < b.len implies #[trigger] bit(r, i) == bit(
        b.network,
        i,
    ) by {
        let k = i / 8;
        lemma_mix_bit(b.network[k], draw[k], b.len, i);
        if marked && k == at {
            let x = mixed[k];
            let s = (7 - i % 8) as u8;
            assert(0 < s < 8);
            assert(((x | 1) >> s) & 1 == (x >> s) & 1) by (bit_vector)
                requires
                    0 < s < 8,
            ;
        }
    }
    if b.len < 128 {
        if marked {
            let i = 8 * at + 7;
            let x = mixed[at];
            assert(((x | 1) >> 0u8) & 1 == 1) by (bit_vector);
            assert(i / 8 == at && i % 8 == 7);
            assert(bit(r, i));
            assert(0 <= i < 128 && b.len <= i);
        } else {
            let k = choose|k: int|
                0 <= k < 16 && #[trigger] draw[k] & !octet_mask(b.len, k) != 0;
            lemma_some_bit(draw, b.len, k);
            let i = choose|i: int| 8 * k <= i < 8 * k + 8 && b.len <= i && #[trigger] bit(draw, i);
            assert(i / 8 == k);
            lemma_mix_bit(b.network[k], draw[k], b.len, i);
            assert(bit(r, i));
        }
    } else {
        assert forall|k: int| 0 <= k < 16 implies r[k] == b.network[k] by {
            let a = b.network[k];
            let d = draw[k];
            assert((a & 0xff) | (d & !0xffu8) == a) by (bit_vector);
        }
        assert(r =~= b.network);
    }
}

/// Octets that agree in every bit are the same.
proof fn lemma_same_bits(x: u8, y: u8)
    requires
        forall|s: u8| s < 8 ==> (#[trigger] (x >> s)) & 1 == (y >> s) & 1,
    ensures
        x == y,
{
    assert((x >> 0u8) & 1 == (y >> 0u8) & 1 && (x >> 1u8) & 1 == (y >> 1u8) & 1);
    assert((x >> 2u8) & 1 == (y >> 2u8) & 1 && (x >> 3u8) & 1 == (y >> 3u8) & 1);
    assert((x >> 4u8) & 1 == (y >> 4u8) & 1 && (x >> 5u8) & 1 == (y >> 5u8) & 1);
    assert((x >> 6u8) & 1 == (y >> 6u8) & 1 && (x >> 7u8) & 1 == (y >> 7u8) & 1);
    assert(x == y) by (bit_vector)
        requires
            (x >> 0u8) & 1 == (y >> 0u8) & 1,
            (x >> 1u8) & 1 == (y >> 1u8) & 1,
            (x >> 2u8) & 1 == (y >> 2u8) & 1,
            (x >> 3u8) & 1 == (y >> 3u8) & 1,
            (x >> 4u8) & 1 == (y >> 4u8) & 1,
            (x >> 5u8) & 1 == (y >> 5u8) & 1,
            (x >> 6u8) & 1 == (y >> 6u8) & 1,
            (x >> 7u8) & 1 == (y >> 7u8) & 1,
    ;
}

/// Every address of a block that can be used as a source can be drawn: no part of the block is left
/// out. Its own octets are a draw that gives it.
pub proof fn law_every_usable_can_be_drawn(b: Prefix, ip: Seq<u8>)
    requires
        b.network.len() == 16,
        0 <= b.len,
        usable(b, ip),
    ensures
        drawn(b, ip) == ip,
{
    let mixed = Seq::new(
        16,
        |k: int| (b.network[k] & octet_mask(b.len, k)) | (ip[k] & !octet_mask(b.len, k)),
    );
    assert forall|k: int| 0 <= k < 16 implies mixed[k] == ip[k] by {
        let x = mixed[k];
        let y = ip[k];
        assert forall|s: u8| s < 8 implies (#[trigger] (x >> s)) & 1 == (y >> s) & 1 by {
            let i = 8 * k + 7 - s;
            assert(i / 8 == k && i % 8 == 7 - s);
            lemma_mix_bit(b.network[k], y, b.len, i);
            if i < b.len {
                assert(bit(ip, i) == bit(b.network, i));
                let n = b.network[k];
                assert(((n >> s) & 1 == 0 || (n >> s) & 1 == 1) && ((y >> s) & 1 == 0 || (y >> s)
                    & 1 == 1)) by (bit_vector);
            }
        }
        lemma_same_bits(x, y);
    }
    assert(mixed =~= ip);
    if b.len < 128 {
        let i = choose|i: int| 0 <= i < 128 && b.len <= i && #[trigger] bit(ip, i);
        let k = i / 8;
        let y = ip[k];
        let m = octet_mask(b.len, k);
        let s = (7 - i % 8) as u8;
        lemma_mix_bit(0, y, b.len, i);
        assert((0u8 & m) | (y & !m) == y & !m) by (bit_vector);
        assert((0u8 >> s) & 1 == 0) by (bit_vector);
        assert(y & !m != 0);
        assert(!host_clear(b.len, ip));
    }
}

/// The bit that is set where no bit behind a prefix is: the last of the address or, if the prefix
/// ends within an octet, the last of that octet.
pub open spec fn marked_bit(len: int) -> int {
    if len % 8 == 0 {
        127
    } else {
        8 * (len / 8) + 7
    }
}

/// Every bit behind the prefix is as it was drawn, so that all of them are random. Only where all of
/// them were drawn as 0, one of them is set.
pub proof fn law_draws_keep_their_bits(b: Prefix, draw: Seq<u8>, i: int)
    requires
        b.network.len() == 16,
        draw.len() == 16,
        0 <= b.len <= i < 128,
    ensures
        (exists|j: int| b.len <= j < 128 && #[trigger] bit(draw, j)) ==> bit(drawn(b, draw), i) == bit(
            draw,
            i,
        ),
        (forall|j: int| b.len <= j < 128 ==> !(#[trigger] bit(draw, j))) ==> bit(drawn(b, draw), i) == (
        i == marked_bit(b.len)),
{
    let mixed = Seq::new(
        16,
        |k: int| (b.network[k] & octet_mask(b.len, k)) | (draw[k] & !octet_mask(b.len, k)),
    );
    let k = i / 8;
    lemma_mix_bit(b.network[k], draw[k], b.len, i);
    assert(bit(mixed, i) == bit(draw, i));
    if exists|j: int| b.len <= j < 128 && #[trigger] bit(draw, j) {
        let j = choose|j: int| b.len <= j < 128 && #[trigger] bit(draw, j);
        lemma_host_bit(draw, b.len, j);
    } else {
        assert forall|k: int| 0 <= k < 16 implies #[trigger] draw[k] & !octet_mask(b.len, k) == 0 by {
            if draw[k] & !octet_mask(b.len, k) != 0 {
                lemma_some_bit(draw, b.len, k);
                let j = choose|j: int|
                    8 * k <= j < 8 * k + 8 && b.len <= j && #[trigger] bit(draw, j);
                assert(b.len <= j < 128);
            }
        }
        let at = mark(b.len);
        if k == at {
            let x = mixed[k];
            let s = (7 - i % 8) as u8;
            if s > 0 {
                assert(((x | 1) >> s) & 1 == (x >> s) & 1) by (bit_vector)
                    requires
                        0 < s < 8,
                ;
            } else {
                assert(((x | 1) >> 0u8) & 1 == 1) by (bit_vector);
            }
        }
    }
}

/// An octet with a bit set behind the prefix is not 0 there.
proof fn lemma_host_bit(octets: Seq<u8>, len: int, i: int)
    requires
        octets.len() == 16,
        0 <= len <= i < 128,
        bit(octets, i),
    ensures
        octets[i / 8] & !octet_mask(len, i / 8) != 0,
        !host_clear(len, octets),
{
    let k = i / 8;
    let y = octets[k];
    let m = octet_mask(len, k);
    let s = (7 - i % 8) as u8;
    lemma_mix_bit(0, y, len, i);
    assert((0u8 & m) | (y & !m) == y & !m) by (bit_vector);
    assert((0u8 >> s) & 1 == 0) by (bit_vector);
    assert(y & !m != 0);
}

/// What an address of a block that can be used as a source is: it agrees with the network in the
/// bits of the prefix; some bit behind the prefix is set, unless there is none; and the address of a
/// block of one is that one.
pub proof fn law_usable_addresses(b: Prefix, ip: Seq<u8>)
    requires
        0 <= b.len <= 128,
    ensures
        usable(b, ip) <==> {
            &&& ip.len() == 16
            &&& forall|i: int| 0 <= i < b.len ==> #[trigger] bit(ip, i) == bit(b.network, i)
            &&& b.len < 128 ==> exists|i: int| b.len <= i < 128 && #[trigger] bit(ip, i)
            &&& b.len == 128 ==> ip == b.network
        },
{
    if b.len < 128 && host_set(b.len, ip) {
        let i = choose|i: int| 0 <= i < 128 && b.len <= i && #[trigger] bit(ip, i);
        assert(b.len <= i < 128 && bit(ip, i));
    }
}

/// Whether an address may come from some of the blocks: it can be used as a source of one of them,
/// and there is none only where there are no blocks.
pub open spec fn egress_from(blocks: Seq<Prefix>, egress: Option<Seq<u8>>) -> bool {
    match egress {
        None => blocks.len() == 0,
        Some(ip) => exists|k: int| 0 <= k < blocks.len() && usable(#[trigger] blocks[k], ip),
    }
}

/// A random address out of a random one of the blocks; none if there are no blocks.
pub fn random_egress_ipv6(blocks: &[Ipv6Block]) -> (r: Option<Ipv6Addr>)
    ensures
        r is None <==> blocks@.len() == 0,
        r matches Some(ip) ==> exists|k: int, draw: Seq<u8>|
            0 <= k < blocks@.len() && draw.len() == 16 && ip@ == #[trigger] drawn(
                blocks@[k]@,
                draw,
            ),
        egress_from(prefixes(blocks@), match r {
            Some(ip) => Some(ip@),
            None => None,
        }),
{
    if blocks.len() == 0 {
        return None;
    }
    let mut rng = thread_rng();
    let k: usize = random_below(&mut rng, blocks.len());
    let ip = blocks[k].random_ip(&mut rng);
    proof {
        assert(prefixes(blocks@)[k as int] == blocks@[k as int]@);
    }
    Some(ip)
}

/// Every block that is read has a prefix of at most 128 bits, and no bit of its network is set
/// behind it.
pub proof fn law_blocks_read_are_masked(s: Seq<char>)
    requires
        block_of(s) is Ok,
    ensures
        ({
            let b = block_of(s)->Ok_0;
            &&& 0 <= b.len <= 128
            &&& b.network.len() == 16
            &&& masked(b.network, b.len) == b.network
        }),
{
    let slash = first_at(s, '/', 0);
    let octets = ipv6_octets(trimmed(s.take(slash)))->0;
    let b = block_of(s)->Ok_0;
    assert(octets.len() == 16);
    law_masked_twice(octets, b.len);
}

/// Blocks may be given in several lists or in one with commas: it makes no difference to what is
/// read.
pub proof fn law_lists_or_commas(front: Seq<Seq<char>>, a: Seq<char>, b: Seq<char>)
    ensures
        blocks_of(all_items(front.push(a).push(b))) == blocks_of(
            all_items(front.push(a.push(',') + b)),
        ),
{
    law_comma_joins_lists(a, b);
    let apart = front.push(a).push(b);
    let together = front.push(a.push(',') + b);
    assert(apart.drop_last() =~= front.push(a));
    assert(front.push(a).drop_last() =~= front);
    assert(together.drop_last() =~= front);
    assert(all_items(front.push(a)) == all_items(front) + list_items(a));
    assert(all_items(apart) =~= all_items(together));
}

} // verus!
