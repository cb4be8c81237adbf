//! Requests and replies, byte by byte.

use vstd::prelude::*;
use crate::addr::{append_bytes, append_u16, endpoint, is_v4, is_v6, u16_bytes, u16_of};
use crate::addr::{unspecified_v4, Endpoint, IpAddr, Ipv4Addr, Ipv6Addr, SocketAddr};
use crate::failure::Failure;
use crate::text::string_from_utf8;

verus! {

/// What a request is about: an address, or a name that stands for one.
#[derive(Debug, PartialEq, Eq)]
pub enum TargetAddr {
    Ip(IpAddr),
    Domain(String),
}

/// What a [`TargetAddr`] stands for.
#[verifier::ext_equal]
pub enum Target {
    Ip(Seq<u8>),
    Domain(Seq<char>),
}

impl View for TargetAddr {
    type V = Target;

    open spec fn view(&self) -> Target {
        match *self {
            TargetAddr::Ip(ip) => Target::Ip(ip@),
            TargetAddr::Domain(name) => Target::Domain(name@),
        }
    }
}

/// How far the bytes received so far go towards an address and a port.
#[derive(Debug, PartialEq, Eq)]
pub enum TargetStatus {
    /// So many more bytes are needed.
    Need(usize),
    /// The address and the port are the first `used` bytes.
    Ready { target: TargetAddr, port: u16, used: usize },
    /// The bytes are not an address and a port.
    Refused(Failure),
}

/// What a [`TargetStatus`] stands for.
#[verifier::ext_equal]
pub enum TargetProgress {
    Need(nat),
    Ready { target: Target, port: u16, used: nat },
    Refused(Failure),
}

impl View for TargetStatus {
    type V = TargetProgress;

    open spec fn view(&self) -> TargetProgress {
        match *self {
            TargetStatus::Need(n) => TargetProgress::Need(n as nat),
            TargetStatus::Ready { target, port, used } => TargetProgress::Ready {
                target: target@,
                port,
                used: used as nat,
            },
            TargetStatus::Refused(f) => TargetProgress::Refused(f),
        }
    }
}

/// The type byte of an IPv4 address.
pub const ATYP_V4: u8 = 1;

/// The type byte of a domain name.
pub const ATYP_DOMAIN: u8 = 3;

/// The type byte of an IPv6 address.
pub const ATYP_V6: u8 = 4;

/// An address of `size` octets behind the type byte, and the port behind it.
pub open spec fn fixed_progress(input: Seq<u8>, size: nat) -> TargetProgress {
    if input.len() < 1 + size {
        TargetProgress::Need((1 + size - input.len()) as nat)
    } else if input.len() < 3 + size {
        TargetProgress::Need((3 + size - input.len()) as nat)
    } else {
        TargetProgress::Ready {
            target: Target::Ip(input.subrange(1, 1 + size as int)),
            port: u16_of(input[1 + size as int], input[2 + size as int]),
            used: 3 + size,
        }
    }
}

/// A domain name behind the type byte: its length in one byte, its bytes in UTF-8, and the port
/// behind them. A name that is not UTF-8 is refused before the port is waited for.
pub open spec fn domain_progress(input: Seq<u8>) -> TargetProgress {
    if input.len() < 2 {
        TargetProgress::Need(1)
    } else {
        let size = input[1] as nat;
        if input.len() < 2 + size {
            TargetProgress::Need((2 + size - input.len()) as nat)
        } else if !vstd::utf8::valid_utf8(input.subrange(2, 2 + size as int)) {
            TargetProgress::Refused(Failure::InvalidDomain)
        } else if input.len() < 4 + size {
            TargetProgress::Need((4 + size - input.len()) as nat)
        } else {
            TargetProgress::Ready {
                target: Target::Domain(
                    vstd::utf8::decode_utf8(input.subrange(2, 2 + size as int)),
                ),
                port: u16_of(input[2 + size as int], input[3 + size as int]),
                used: 4 + size,
            }
        }
    }
}

/// How far some bytes go towards an address and a port: a type byte, the address, the port.
pub open spec fn target_progress(input: Seq<u8>) -> TargetProgress {
    if input.len() == 0 {
        TargetProgress::Need(1)
    } else if input[0] == ATYP_V4 {
        fixed_progress(input, 4)
    } else if input[0] == ATYP_DOMAIN {
        domain_progress(input)
    } else if input[0] == ATYP_V6 {
        fixed_progress(input, 16)
    } else {
        TargetProgress::Refused(Failure::UnsupportedAddressType)
    }
}

/// Reads an address and a port from the bytes received so far.
pub fn read_target_addr(input: &[u8]) -> (r: TargetStatus)
    ensures
        r@ == target_progress(input@),
{
    if input.len() == 0 {
        return TargetStatus::Need(1);
    }
    let atyp: u8 = input[0];
    if atyp == ATYP_V4 {
        if input.len() < 5 {
            return TargetStatus::Need(5 - input.len());
        }
        if input.len() < 7 {
            return TargetStatus::Need(7 - input.len());
        }
        let ip = Ipv4Addr { octets: [input[1], input[2], input[3], input[4]] };
        assert(ip@ =~= input@.subrange(1, 5));
        let port: u16 = input[5] as u16 * 256 + input[6] as u16;
        TargetStatus::Ready { target: TargetAddr::Ip(IpAddr::V4(ip)), port, used: 7 }
    } else if atyp == ATYP_DOMAIN {
        if input.len() < 2 {
            return TargetStatus::Need(1);
        }
        let size: usize = input[1] as usize;
        if input.len() < 2 + size {
            return TargetStatus::Need(2 + size - input.len());
        }
        let mut name: Vec<u8> = Vec::new();
        append_bytes(&mut name, vstd::slice::slice_subrange(input, 2, 2 + size));
        assert(name@ =~= input@.subrange(2, 2 + size as int));
        match string_from_utf8(name) {
            None => TargetStatus::Refused(Failure::InvalidDomain),
            Some(domain) => {
                if input.len() < 4 + size {
                    return TargetStatus::Need(4 + size - input.len());
                }
                let port: u16 = input[2 + size] as u16 * 256 + input[3 + size] as u16;
                TargetStatus::Ready { target: TargetAddr::Domain(domain), port, used: 4 + size }
            },
        }
    } else if atyp == ATYP_V6 {
        if input.len() < 17 {
            return TargetStatus::Need(17 - input.len());
        }
        if input.len() < 19 {
            return TargetStatus::Need(19 - input.len());
        }
        let mut octets: [u8; 16] = [0u8; 16];
        let mut i: usize = 0;
        while i < 16
            invariant
                i <= 16,
                input@.len() >= 19,
                forall|k: int| 0 <= k < i ==> octets@[k] == input@[1 + k],
            decreases 16 - i,
        {
            octets[i] = input[1 + i];
            i = i + 1;
        }
        let ip = Ipv6Addr { octets };
        assert(ip@ =~= input@.subrange(1, 17));
        let port: u16 = input[17] as u16 * 256 + input[18] as u16;
        TargetStatus::Ready { target: TargetAddr::Ip(IpAddr::V6(ip)), port, used: 19 }
    } else {
        TargetStatus::Refused(Failure::UnsupportedAddressType)
    }
}

/// The protocol version that greetings, requests and replies start with.
pub const VERSION: u8 = 5;

/// A request: what to do, and with which target.
#[derive(Debug, PartialEq, Eq)]
pub struct Request {
    pub command: u8,
    pub target: TargetAddr,
    pub port: u16,
}

/// How far the bytes received so far go towards a request.
#[derive(Debug, PartialEq, Eq)]
pub enum RequestStatus {
    /// So many more bytes are needed.
    Need(usize),
    /// The request is the first `used` bytes.
    Ready { request: Request, used: usize },
    /// The bytes are not a request.
    Refused(Failure),
}

/// What a [`RequestStatus`] stands for.
#[verifier::ext_equal]
pub enum RequestProgress {
    Need(nat),
    Ready { command: u8, target: Target, port: u16, used: nat },
    Refused(Failure),
}

impl View for RequestStatus {
    type V = RequestProgress;

    open spec fn view(&self) -> RequestProgress {
        match *self {
            RequestStatus::Need(n) => RequestProgress::Need(n as nat),
            RequestStatus::Ready { request, used } => RequestProgress::Ready {
                command: request.command,
                target: request.target@,
                port: request.port,
                used: used as nat,
            },
            RequestStatus::Refused(f) => RequestProgress::Refused(f),
        }
    }
}

/// How far some bytes go towards a request: the version, the command, a reserved byte that is 0,
/// the address and the port.
pub open spec fn request_progress(input: Seq<u8>) -> RequestProgress {
    if input.len() == 0 {
        RequestProgress::Need(1)
    } else if input[0] != VERSION {
        RequestProgress::Refused(Failure::NotSocks5Request)
    } else if input.len() < 3 {
        RequestProgress::Need(1)
    } else if input[2] != 0 {
        RequestProgress::Refused(Failure::ReservedNotZero)
    } else {
        match target_progress(input.skip(3)) {
            TargetProgress::Need(n) => RequestProgress::Need(n),
            TargetProgress::Ready { target, port, used } => RequestProgress::Ready {
                command: input[1],
                target,
                port,
                used: used + 3,
            },
            TargetProgress::Refused(f) => RequestProgress::Refused(f),
        }
    }
}

/// Reads a request from the bytes received so far.
pub fn read_request(received: &[u8]) -> (r: RequestStatus)
    ensures
        r@ == request_progress(received@),
{
    if received.len() == 0 {
        return RequestStatus::Need(1);
    }
    if received[0] != VERSION {
        return RequestStatus::Refused(Failure::NotSocks5Request);
    }
    if received.len() < 3 {
        return RequestStatus::Need(1);
    }
    let command: u8 = received[1];
    if received[2] != 0 {
        return RequestStatus::Refused(Failure::ReservedNotZero);
    }
    let rest = vstd::slice::slice_subrange(received, 3, received.len());
    assert(rest@ =~= received@.skip(3));
    match read_target_addr(rest) {
        TargetStatus::Need(n) => RequestStatus::Need(n),
        TargetStatus::Ready { target, port, used } => {
            proof {
                lemma_ready_within(rest@);
            }
            RequestStatus::Ready { request: Request { command, target, port }, used: used + 3 }
        },
        TargetStatus::Refused(f) => RequestStatus::Refused(f),
    }
}

/// The bytes of an address and its port: the type byte, the octets, the port.
pub open spec fn address_bytes(a: Endpoint) -> Seq<u8> {
    seq![
        if is_v4(a.ip) {
            ATYP_V4
        } else {
            ATYP_V6
        },
    ] + a.ip + u16_bytes(a.port)
}

/// The bytes of a reply: the version, the reply code, a reserved byte, the address and the port.
pub open spec fn reply_bytes(rep: u8, a: Endpoint) -> Seq<u8> {
    seq![VERSION, rep, 0] + address_bytes(a)
}

/// The bytes of a reply that carries no address.
pub open spec fn fail_bytes(rep: u8) -> Seq<u8> {
    reply_bytes(rep, endpoint(unspecified_v4(), 0))
}

/// Appends an address and its port.
pub fn append_address(out: &mut Vec<u8>, addr: &SocketAddr)
    ensures
        final(out)@ == old(out)@ + address_bytes(addr@),
{
    if addr.is_ipv6() {
        out.push(ATYP_V6);
    } else {
        out.push(ATYP_V4);
    }
    addr.ip().append_to(out);
    append_u16(out, addr.port());
    assert(out@ =~= old(out)@ + address_bytes(addr@));
}

/// The bytes of a reply with the code `rep` and the address `addr`.
pub fn write_reply(rep: u8, addr: &SocketAddr) -> (r: Vec<u8>)
    ensures
        r@ == reply_bytes(rep, addr@),
{
    let mut buf: Vec<u8> = Vec::with_capacity(22);
    buf.push(VERSION);
    buf.push(rep);
    buf.push(0);
    assert(buf@ =~= seq![VERSION, rep, 0]);
    append_address(&mut buf, addr);
    buf
}

/// The bytes of a reply with the code `rep` and no address (`0.0.0.0`, port 0).
pub fn fail_reply(rep: u8) -> (r: Vec<u8>)
    ensures
        r@ == fail_bytes(rep),
{
    let none = SocketAddr::new(IpAddr::V4(Ipv4Addr::unspecified()), 0);
    write_reply(rep, &none)
}

/// An address that has been read lies within the bytes that it was read from, and a type byte
/// and a port belong to it.
pub proof fn lemma_ready_within(input: Seq<u8>)
    ensures
        target_progress(input) matches TargetProgress::Ready { used, .. } ==> 3 <= used
            <= input.len(),
{
}

/// Bytes that are read as they are asked for never go past the end of the address: after the
/// number of bytes asked for, either more is asked for, or the address ends at the last of them.
/// Before that number has come, just the rest of it is asked for.
pub proof fn law_target_never_overread(input: Seq<u8>, more: Seq<u8>)
    requires
        target_progress(input) is Need,
    ensures
        target_progress(input)->Need_0 > 0,
        more.len() == target_progress(input)->Need_0 ==> match target_progress(input + more) {
            TargetProgress::Ready { used, .. } => used == (input + more).len(),
            _ => true,
        },
        more.len() < target_progress(input)->Need_0 ==> target_progress(input + more)
            == TargetProgress::Need((target_progress(input)->Need_0 - more.len()) as nat),
{
    if input.len() > 0 {
        assert((input + more)[0] == input[0]);
        if input.len() > 1 {
            assert((input + more)[1] == input[1]);
            let size = input[1] as nat;
            if input.len() >= 2 + size {
                assert((input + more).subrange(2, 2 + size as int) =~= input.subrange(
                    2,
                    2 + size as int,
                ));
            }
        }
    } else {
        assert(input + more =~= more);
    }
}

/// What has been read, or refused, stays so whatever comes behind it.
pub proof fn law_target_settled(input: Seq<u8>, more: Seq<u8>)
    requires
        !(target_progress(input) is Need),
    ensures
        target_progress(input + more) == target_progress(input),
{
    assert((input + more)[0] == input[0]);
    let all = input + more;
    if input[0] == ATYP_V4 {
        assert(all.subrange(1, 5) =~= input.subrange(1, 5));
    } else if input[0] == ATYP_V6 {
        assert(all.subrange(1, 17) =~= input.subrange(1, 17));
    } else if input[0] == ATYP_DOMAIN {
        let size = input[1] as int;
        assert(all.subrange(2, 2 + size) =~= input.subrange(2, 2 + size));
    }
}

/// Bytes that are read as they are asked for never go past the end of the request, so that none
/// of what the client sends behind it is lost.
pub proof fn law_request_never_overread(input: Seq<u8>, more: Seq<u8>)
    requires
        request_progress(input) is Need,
    ensures
        request_progress(input)->Need_0 > 0,
        more.len() == request_progress(input)->Need_0 ==> match request_progress(input + more) {
            RequestProgress::Ready { used, .. } => used == (input + more).len(),
            _ => true,
        },
        more.len() < request_progress(input)->Need_0 ==> request_progress(input + more)
            == RequestProgress::Need((request_progress(input)->Need_0 - more.len()) as nat),
{
    let all = input + more;
    if input.len() >= 3 {
        assert(all[0] == input[0] && all[1] == input[1] && all[2] == input[2]);
        assert(all.skip(3) =~= input.skip(3) + more);
        law_target_never_overread(input.skip(3), more);
    } else {
        if input.len() > 0 {
            assert(all[0] == input[0]);
        }
        if more.len() == 0 {
            assert(all =~= input);
        }
    }
}

/// A request that has been read, or refused, stays so whatever comes behind it.
pub proof fn law_request_settled(input: Seq<u8>, more: Seq<u8>)
    requires
        !(request_progress(input) is Need),
    ensures
        request_progress(input + more) == request_progress(input),
{
    let all = input + more;
    assert(all[0] == input[0]);
    if input[0] == VERSION {
        assert(all[2] == input[2] && all[1] == input[1]);
        if input[2] == 0 {
            assert(all.skip(3) =~= input.skip(3) + more);
            law_target_settled(input.skip(3), more);
        }
    }
}

/// The address of a reply reads back as what was written, and nothing behind it is touched.
pub proof fn law_address_round_trip(a: Endpoint, rest: Seq<u8>)
    requires
        is_v4(a.ip) || is_v6(a.ip),
    ensures
        target_progress(address_bytes(a) + rest) == (TargetProgress::Ready {
            target: Target::Ip(a.ip),
            port: a.port,
            used: address_bytes(a).len(),
        }),
{
    let all = address_bytes(a) + rest;
    let n = a.ip.len() as int;
    assert(all.subrange(1, 1 + n) =~= a.ip);
    assert(all[1 + n] == u16_bytes(a.port)[0]);
    assert(all[2 + n] == u16_bytes(a.port)[1]);
}

/// The bytes of a request for a target: the version, the command, the reserved byte, the address
/// and the port.
pub open spec fn request_bytes(command: u8, target: Target, port: u16) -> Seq<u8> {
    seq![VERSION, command, 0] + match target {
        Target::Ip(ip) => address_bytes(endpoint(ip, port)),
        Target::Domain(name) => {
            let bytes = vstd::utf8::encode_utf8(name);
            seq![ATYP_DOMAIN, bytes.len() as u8] + bytes + u16_bytes(port)
        },
    }
}

/// Every request that can be written reads back as what was written: any command, any address of
/// either family, any name of at most 255 bytes, any port.
pub proof fn law_request_round_trip(command: u8, target: Target, port: u16)
    requires
        match target {
            Target::Ip(ip) => is_v4(ip) || is_v6(ip),
            Target::Domain(name) => vstd::utf8::encode_utf8(name).len() <= 255,
        },
    ensures
        request_progress(request_bytes(command, target, port)) == (RequestProgress::Ready {
            command,
            target,
            port,
            used: request_bytes(command, target, port).len(),
        }),
{
    let all = request_bytes(command, target, port);
    match target {
        Target::Ip(ip) => {
            let a = endpoint(ip, port);
            law_address_round_trip(a, Seq::empty());
            assert(all.skip(3) =~= address_bytes(a) + Seq::<u8>::empty());
        },
        Target::Domain(name) => {
            let bytes = vstd::utf8::encode_utf8(name);
            vstd::utf8::encode_utf8_valid_utf8(name);
            vstd::utf8::encode_utf8_decode_utf8(name);
            let rest = seq![ATYP_DOMAIN, bytes.len() as u8] + bytes + u16_bytes(port);
            let n = bytes.len() as int;
            assert(all.skip(3) =~= rest);
            assert(rest.subrange(2, 2 + n) =~= bytes);
            assert(rest[2 + n] == u16_bytes(port)[0]);
            assert(rest[3 + n] == u16_bytes(port)[1]);
        },
    }
}

} // verus!
