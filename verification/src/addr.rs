//! Network addresses as plain values.

use vstd::prelude::*;

verus! {

/// An IPv4 address, its octets in network order.
#[derive(Clone, Copy, Debug, PartialEq, Eq)]
pub struct Ipv4Addr {
    pub octets: [u8; 4],
}

/// An IPv6 address, its octets in network order.
#[derive(Clone, Copy, Debug, PartialEq, Eq)]
pub struct Ipv6Addr {
    pub octets: [u8; 16],
}

/// An address of either family.
#[derive(Clone, Copy, Debug, PartialEq, Eq)]
pub enum IpAddr {
    V4(Ipv4Addr),
    V6(Ipv6Addr),
}

/// An address and a port, with the two further fields that IPv6 socket addresses have.
#[allow(inconsistent_fields)]
#[derive(Clone, Copy, Debug, PartialEq, Eq)]
pub enum SocketAddr {
    V4 { ip: Ipv4Addr, port: u16 },
    V6 { ip: Ipv6Addr, port: u16, flowinfo: u32, scope_id: u32 },
}

/// What a [`SocketAddr`] stands for: 4 octets for IPv4 or 16 for IPv6, and the numbers beside them.
#[verifier::ext_equal]
pub struct Endpoint {
    pub ip: Seq<u8>,
    pub port: u16,
    pub flowinfo: u32,
    pub scope_id: u32,
}

impl View for Ipv4Addr {
    type V = Seq<u8>;

    open spec fn view(&self) -> Seq<u8> {
        self.octets@
    }
}

impl View for Ipv6Addr {
    type V = Seq<u8>;

    open spec fn view(&self) -> Seq<u8> {
        self.octets@
    }
}

impl View for IpAddr {
    type V = Seq<u8>;

    open spec fn view(&self) -> Seq<u8> {
        match *self {
            IpAddr::V4(a) => a@,
            IpAddr::V6(a) => a@,
        }
    }
}

impl View for SocketAddr {
    type V = Endpoint;

    open spec fn view(&self) -> Endpoint {
        match *self {
            SocketAddr::V4 { ip, port } => Endpoint { ip: ip@, port, flowinfo: 0, scope_id: 0 },
            SocketAddr::V6 { ip, port, flowinfo, scope_id } => Endpoint {
                ip: ip@,
                port,
                flowinfo,
                scope_id,
            },
        }
    }
}

/// Whether some octets are those of an IPv4 address.
pub open spec fn is_v4(ip: Seq<u8>) -> bool {
    ip.len() == 4
}

/// Whether some octets are those of an IPv6 address.
pub open spec fn is_v6(ip: Seq<u8>) -> bool {
    ip.len() == 16
}

/// An address and a port, with nothing beside them.
pub open spec fn endpoint(ip: Seq<u8>, port: u16) -> Endpoint {
    Endpoint { ip, port, flowinfo: 0, scope_id: 0 }
}

/// The IPv4 address `0.0.0.0`.
pub open spec fn unspecified_v4() -> Seq<u8> {
    Seq::new(4, |i: int| 0u8)
}

/// The IPv6 address `::`.
pub open spec fn unspecified_v6() -> Seq<u8> {
    Seq::new(16, |i: int| 0u8)
}

/// A number of 16 bits in network order.
pub open spec fn u16_bytes(n: u16) -> Seq<u8> {
    seq![(n / 256) as u8, (n % 256) as u8]
}

/// The number of 16 bits that two bytes in network order are.
pub open spec fn u16_of(hi: u8, lo: u8) -> u16 {
    (hi * 256 + lo) as u16
}

impl Ipv4Addr {
    /// `0.0.0.0`.
    pub fn unspecified() -> (r: Ipv4Addr)
        ensures
            r@ == unspecified_v4(),
    {
        Ipv4Addr { octets: [0u8; 4] }
    }
}

impl Ipv6Addr {
    /// `::`.
    pub fn unspecified() -> (r: Ipv6Addr)
        ensures
            r@ == unspecified_v6(),
    {
        Ipv6Addr { octets: [0u8; 16] }
    }
}

impl IpAddr {
    /// Whether this is an IPv6 address.
    pub fn is_ipv6(&self) -> (r: bool)
        ensures
            r == is_v6(self@),
            !r == is_v4(self@),
    {
        match self {
            IpAddr::V4(_) => false,
            IpAddr::V6(_) => true,
        }
    }

    /// Whether two addresses are the same. Addresses of different families never are.
    pub fn same(&self, other: &IpAddr) -> (r: bool)
        ensures
            r == (self@ == other@),
    {
        match (self, other) {
            (IpAddr::V4(a), IpAddr::V4(b)) => same_bytes(&a.octets, &b.octets),
            (IpAddr::V6(a), IpAddr::V6(b)) => same_bytes(&a.octets, &b.octets),
            (IpAddr::V4(a), IpAddr::V6(b)) => {
                assert(a@.len() == 4 && b@.len() == 16);
                false
            },
            (IpAddr::V6(a), IpAddr::V4(b)) => {
                assert(a@.len() == 16 && b@.len() == 4);
                false
            },
        }
    }

    /// Appends the octets to a buffer.
    pub fn append_to(&self, out: &mut Vec<u8>)
        ensures
            final(out)@ == old(out)@ + self@,
    {
        match self {
            IpAddr::V4(a) => append_bytes(out, &a.octets),
            IpAddr::V6(a) => append_bytes(out, &a.octets),
        }
    }
}

impl SocketAddr {
    /// The socket address of an address and a port.
    pub fn new(ip: IpAddr, port: u16) -> (r: SocketAddr)
        ensures
            r@ == endpoint(ip@, port),
    {
        match ip {
            IpAddr::V4(ip) => SocketAddr::V4 { ip, port },
            IpAddr::V6(ip) => SocketAddr::V6 { ip, port, flowinfo: 0, scope_id: 0 },
        }
    }

    /// The address without the port.
    pub fn ip(&self) -> (r: IpAddr)
        ensures
            r@ == self@.ip,
    {
        match *self {
            SocketAddr::V4 { ip, .. } => IpAddr::V4(ip),
            SocketAddr::V6 { ip, .. } => IpAddr::V6(ip),
        }
    }

    /// The port.
    pub fn port(&self) -> (r: u16)
        ensures
            r == self@.port,
    {
        match *self {
            SocketAddr::V4 { port, .. } => port,
            SocketAddr::V6 { port, .. } => port,
        }
    }

    /// Whether this is an IPv6 address.
    pub fn is_ipv6(&self) -> (r: bool)
        ensures
            r == is_v6(self@.ip),
            !r == is_v4(self@.ip),
    {
        match self {
            SocketAddr::V4 { .. } => false,
            SocketAddr::V6 { .. } => true,
        }
    }
}

/// Whether two byte strings are the same.
pub fn same_bytes(a: &[u8], b: &[u8]) -> (r: bool)
    ensures
        r == (a@ == b@),
{
    if a.len() != b.len() {
        return false;
    }
    let mut i: usize = 0;
    while i < a.len()
        invariant
            i <= a.len(),
            a@.len() == b@.len(),
            forall|k: int| 0 <= k < i ==> a@[k] == b@[k],
        decreases a.len() - i,
    {
        if a[i] != b[i] {
            return false;
        }
        i = i + 1;
    }
    assert(a@ =~= b@);
    true
}

/// Appends bytes to a buffer.
pub fn append_bytes(out: &mut Vec<u8>, bytes: &[u8])
    ensures
        final(out)@ == old(out)@ + bytes@,
{
    out.extend_from_slice(bytes);
    assert(out@ =~= old(out)@ + bytes@);
}

/// Appends a number of 16 bits in network order.
pub fn append_u16(out: &mut Vec<u8>, n: u16)
    ensures
        final(out)@ == old(out)@ + u16_bytes(n),
{
    out.push((n / 256) as u8);
    out.push((n % 256) as u8);
    assert(out@ =~= old(out)@ + u16_bytes(n));
}

/// Splitting a number of 16 bits into two bytes loses nothing.
pub proof fn law_u16_bytes_round_trip(n: u16)
    ensures
        u16_of(u16_bytes(n)[0], u16_bytes(n)[1]) == n,
{
}

} // verus!
