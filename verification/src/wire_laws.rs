//! The messages, byte by byte: what they mean to the proxy, and what it sends.

use vstd::prelude::*;
use vstd::utf8::{decode_utf8, encode_utf8, valid_utf8};
use crate::addr::{is_v4, is_v6, u16_bytes, u16_of, Endpoint, IpAddr, Ipv4Addr, Ipv6Addr, SocketAddr};
use crate::config::Settings;
use crate::failure::Failure;
use crate::handshake::{credentials_message, dialogue, greeting, law_guarded_proxy};
use crate::handshake::{law_handshake_goes_on, law_open_proxy, Dialogue, DialogueStatus};
use crate::request::{fail_bytes, reply_bytes, request_progress, target_progress, RequestProgress};
use crate::request::{law_request_settled, lemma_ready_within, Target, TargetProgress};
use crate::udp::{client_after, forwarded, relayed, wrapped, Relayed, UdpAction};

verus! {

/// An address as its octets stand in a message: a type byte and the octets.
pub open spec fn typed(ip: Seq<u8>) -> Seq<u8> {
    if ip.len() == 4 {
        seq![1u8] + ip
    } else {
        seq![4u8] + ip
    }
}

/// A name as it stands in a message: a type byte, the number of its bytes, and the bytes.
pub open spec fn named(name: Seq<u8>) -> Seq<u8> {
    seq![3u8, name.len() as u8] + name
}

/// Whether octets are an address of either family.
pub open spec fn is_ip(ip: Seq<u8>) -> bool {
    ip.len() == 4 || ip.len() == 16
}

/// Whether two bytes are a number, the more significant byte first.
pub open spec fn is_port(port: u16, hi: u8, lo: u8) -> bool {
    port == hi * 256 + lo
}

/// An address, a port, and nothing else.
pub open spec fn plain_endpoint(ip: Seq<u8>, port: u16) -> Endpoint {
    Endpoint { ip, port, flowinfo: 0, scope_id: 0 }
}

/// Numbers of 16 bits stand in messages with the more significant byte first.
pub proof fn law_network_order(n: u16, hi: u8, lo: u8)
    ensures
        u16_bytes(n).len() == 2,
        is_port(n, u16_bytes(n)[0], u16_bytes(n)[1]),
        is_port(u16_of(hi, lo), hi, lo),
{
}

/// An address and a port that a client sends are read as just this address and this port, and so is
/// a name; and nothing behind them is looked at.
pub proof fn law_targets(ip: Seq<u8>, name: Seq<u8>, hi: u8, lo: u8, port: u16, rest: Seq<u8>)
    requires
        is_ip(ip),
        is_port(port, hi, lo),
        name.len() <= 255,
    ensures
        target_progress(typed(ip) + seq![hi, lo] + rest) == (TargetProgress::Ready {
            target: Target::Ip(ip),
            port,
            used: 3 + ip.len(),
        }),
        valid_utf8(name) ==> target_progress(named(name) + seq![hi, lo] + rest) == (
        TargetProgress::Ready {
            target: Target::Domain(decode_utf8(name)),
            port,
            used: 4 + name.len(),
        }),
        !valid_utf8(name) ==> target_progress(named(name) + rest) == TargetProgress::Refused(
            Failure::InvalidDomain,
        ),
{
    let a = typed(ip) + seq![hi, lo] + rest;
    let n = ip.len() as int;
    assert(a.subrange(1, 1 + n) =~= ip);
    assert(a[1 + n] == hi && a[2 + n] == lo);
    let b = named(name) + seq![hi, lo] + rest;
    let m = name.len() as int;
    assert(b.subrange(2, 2 + m) =~= name);
    assert(b[2 + m] == hi && b[3 + m] == lo);
    let c = named(name) + rest;
    assert(c.subrange(2, 2 + m) =~= name);
}

/// A request for an address is read as just the command, the address and the port that the client
/// sends, whatever they are; and nothing behind it is looked at.
#[verifier::rlimit(40)]
pub proof fn law_address_requests(
    command: u8,
    ip: Seq<u8>,
    hi: u8,
    lo: u8,
    port: u16,
    rest: Seq<u8>,
)
    requires
        is_ip(ip),
        is_port(port, hi, lo),
    ensures
        request_progress(seq![5u8, command, 0] + typed(ip) + seq![hi, lo] + rest) == (
        RequestProgress::Ready {
            command,
            target: Target::Ip(ip),
            port,
            used: 6 + ip.len(),
        }),
{
    let a = typed(ip) + seq![hi, lo] + rest;
    law_targets(ip, Seq::empty(), hi, lo, port, rest);
    lemma_joined(seq![5u8, command, 0], typed(ip), seq![hi, lo], rest);
    lemma_request_behind(command, a);
}

/// A request for a name is read as just the command, the name and the port that the client sends,
/// whatever they are; and nothing behind it is looked at. A name that is not UTF-8 is refused.
#[verifier::rlimit(40)]
pub proof fn law_name_requests(
    command: u8,
    name: Seq<u8>,
    hi: u8,
    lo: u8,
    port: u16,
    rest: Seq<u8>,
)
    requires
        is_port(port, hi, lo),
        name.len() <= 255,
    ensures
        valid_utf8(name) ==> request_progress(
            seq![5u8, command, 0] + named(name) + seq![hi, lo] + rest,
        ) == (RequestProgress::Ready {
            command,
            target: Target::Domain(decode_utf8(name)),
            port,
            used: 7 + name.len(),
        }),
        !valid_utf8(name) ==> request_progress(seq![5u8, command, 0] + named(name) + rest)
            == RequestProgress::Refused(Failure::InvalidDomain),
{
    law_targets(seq![0u8, 0, 0, 0], name, hi, lo, port, rest);
    let b = named(name) + seq![hi, lo] + rest;
    let c = named(name) + rest;
    lemma_joined(seq![5u8, command, 0], named(name), seq![hi, lo], rest);
    if valid_utf8(name) {
        lemma_request_behind(command, b);
    } else {
        lemma_request_behind(command, c);
    }
}

proof fn lemma_joined(a: Seq<u8>, b: Seq<u8>, c: Seq<u8>, d: Seq<u8>)
    ensures
        a + b + c + d == a + (b + c + d),
        a + b + d == a + (b + d),
{
    assert(a + b + c + d =~= a + (b + c + d));
    assert(a + b + d =~= a + (b + d));
}

proof fn lemma_request_behind(command: u8, t: Seq<u8>)
    ensures
        request_progress(seq![5u8, command, 0] + t) == (match target_progress(t) {
            TargetProgress::Need(n) => RequestProgress::Need(n),
            TargetProgress::Ready { target, port, used } => RequestProgress::Ready {
                command,
                target,
                port,
                used: used + 3,
            },
            TargetProgress::Refused(f) => RequestProgress::Refused(f),
        }),
{
    assert((seq![5u8, command, 0] + t).skip(3) =~= t);
}

/// What is not a request is refused for what is wrong with it: a first byte other than 5, a third
/// other than 0, a type of address other than 1, 3 and 4.
pub proof fn law_no_requests(input: Seq<u8>)
    ensures
        input.len() >= 1 && input[0] != 5 ==> request_progress(input) == RequestProgress::Refused(
            Failure::NotSocks5Request,
        ),
        input.len() >= 3 && input[0] == 5 && input[2] != 0 ==> request_progress(input)
            == RequestProgress::Refused(Failure::ReservedNotZero),
        input.len() >= 4 && input[0] == 5 && input[2] == 0 && input[3] != 1 && input[3] != 3
            && input[3] != 4 ==> request_progress(input) == RequestProgress::Refused(
            Failure::UnsupportedAddressType,
        ),
{
}

/// While a request is not complete and nothing is wrong with it, it is waited for.
pub proof fn law_incomplete_requests(whole: Seq<u8>, n: int)
    requires
        request_progress(whole) matches RequestProgress::Ready { used, .. } && used == whole.len(),
        0 <= n < whole.len(),
    ensures
        request_progress(whole.take(n)) is Need,
{
    let part = whole.take(n);
    if !(request_progress(part) is Need) {
        law_request_settled(part, whole.skip(n));
        assert(part + whole.skip(n) =~= whole);
        lemma_ready_within(part.skip(3));
    }
}

/// A reply is the byte 5, its code, a 0, and the address and the port that it is about.
pub proof fn law_replies(rep: u8, a: Endpoint, hi: u8, lo: u8)
    requires
        is_ip(a.ip),
        is_port(a.port, hi, lo),
    ensures
        reply_bytes(rep, a) == seq![5u8, rep, 0] + typed(a.ip) + seq![hi, lo],
        fail_bytes(rep) == seq![5u8, rep, 0, 1, 0, 0, 0, 0, 0, 0],
{
    assert(u16_bytes(a.port) =~= seq![hi, lo]);
    assert(reply_bytes(rep, a) =~= seq![5u8, rep, 0] + typed(a.ip) + seq![hi, lo]);
    assert(fail_bytes(rep) =~= seq![5u8, rep, 0, 1, 0, 0, 0, 0, 0, 0]);
}

/// What a client starts with: the byte 5, the number of the methods that it offers, and the methods.
pub open spec fn hello(methods: Seq<u8>) -> Seq<u8> {
    seq![5u8, methods.len() as u8] + methods
}

/// The message with a user name and a password.
pub open spec fn login(user: Seq<u8>, password: Seq<u8>) -> Seq<u8> {
    seq![1u8, user.len() as u8] + user + seq![password.len() as u8] + password
}

/// What is not the start of a handshake is refused: a first byte other than 5, at once and without an
/// answer; and no methods at all.
pub proof fn law_no_handshakes(s: Settings, input: Seq<u8>)
    ensures
        input.len() >= 1 && input[0] != 5 ==> dialogue(s, input).sent.len() == 0 && dialogue(
            s,
            input,
        ).status == DialogueStatus::Refused(Failure::NotSocks5),
        input.len() >= 2 && input[0] == 5 && input[1] == 0 ==> dialogue(s, input).sent == seq![
            5u8,
            0xff,
        ] && dialogue(s, input).status == DialogueStatus::Refused(Failure::NoMethods),
{
}

/// Where user name or password is not set, a client that offers method 0 is let in, whatever else it
/// offers, and one that does not is turned away.
pub proof fn law_clients_without_password(s: Settings, methods: Seq<u8>, rest: Seq<u8>)
    requires
        s.username is None || s.password is None,
        1 <= methods.len() <= 255,
    ensures
        methods.contains(0u8) ==> dialogue(s, hello(methods) + rest) == (Dialogue {
            sent: seq![5u8, 0],
            status: DialogueStatus::Accepted(2 + methods.len()),
        }),
        !methods.contains(0u8) ==> dialogue(s, hello(methods) + rest) == (Dialogue {
            sent: seq![5u8, 0xff],
            status: DialogueStatus::Refused(Failure::NoAcceptableMethod),
        }),
{
    assert(hello(methods) =~= greeting(methods));
    law_open_proxy(s, methods);
    law_handshake_goes_on(s, hello(methods), rest);
}

/// Where user name and password are set, a client that does not offer method 2 is turned away. One
/// that does is let in exactly if it then gives just this user name and just this password, each of
/// them whole; with any other it is refused.
pub proof fn law_clients_with_password(
    s: Settings,
    u: Seq<char>,
    p: Seq<char>,
    methods: Seq<u8>,
    user: Seq<u8>,
    password: Seq<u8>,
    rest: Seq<u8>,
)
    requires
        s.username == Some(u),
        s.password == Some(p),
        1 <= methods.len() <= 255,
        user.len() <= 255,
        password.len() <= 255,
    ensures
        !methods.contains(2u8) ==> dialogue(s, hello(methods) + rest) == (Dialogue {
            sent: seq![5u8, 0xff],
            status: DialogueStatus::Refused(Failure::NoAcceptableMethod),
        }),
        methods.contains(2u8) ==> dialogue(s, hello(methods)) == (Dialogue {
            sent: seq![5u8, 2],
            status: DialogueStatus::Need(1),
        }),
        methods.contains(2u8) && user == encode_utf8(u) && password == encode_utf8(p) ==> dialogue(
            s,
            hello(methods) + login(user, password) + rest,
        ) == (Dialogue {
            sent: seq![5u8, 2, 1, 0],
            status: DialogueStatus::Accepted(5 + methods.len() + user.len() + password.len()),
        }),
        methods.contains(2u8) && !(user == encode_utf8(u) && password == encode_utf8(p)) ==> dialogue(
            s,
            hello(methods) + login(user, password) + rest,
        ) == (Dialogue {
            sent: seq![5u8, 2, 1, 1],
            status: DialogueStatus::Refused(Failure::AuthenticationFailed),
        }),
{
    assert(hello(methods) =~= greeting(methods));
    assert(login(user, password) =~= credentials_message(user, password));
    assert(s.credentials() == Some((encode_utf8(u), encode_utf8(p))));
    law_guarded_proxy(s, methods, user, password);
    law_handshake_goes_on(s, hello(methods), rest);
    law_handshake_goes_on(s, hello(methods) + login(user, password), rest);
}

/// Where user name and password are set, a message with them that does not start with the byte 1 is
/// refused without an answer to it.
pub proof fn law_no_logins(s: Settings, methods: Seq<u8>, version: u8, rest: Seq<u8>)
    requires
        s.username is Some,
        s.password is Some,
        1 <= methods.len() <= 255,
        methods.contains(2u8),
        version != 1,
    ensures
        dialogue(s, hello(methods) + seq![version] + rest) == (Dialogue {
            sent: seq![5u8, 2],
            status: DialogueStatus::Refused(Failure::NotPasswordAuthentication),
        }),
{
    let input = hello(methods) + seq![version] + rest;
    let end = 2 + methods.len() as int;
    assert(input.subrange(2, end) =~= methods);
    assert(input.skip(end)[0] == version);
    assert(seq![5u8, 2] + Seq::<u8>::empty() =~= seq![5u8, 2]);
}

/// The datagram of a client for an address is sent on to just this address and this port, with just
/// the bytes behind them. An IPv4 target is left out where it is refused.
#[verifier::rlimit(40)]
pub proof fn law_datagrams_to_addresses(
    refuse_ipv4: bool,
    client: Endpoint,
    src: Endpoint,
    ip: Seq<u8>,
    hi: u8,
    lo: u8,
    port: u16,
    payload: Seq<u8>,
)
    requires
        src.ip == client.ip,
        is_ip(ip),
        is_port(port, hi, lo),
    ensures
        relayed(refuse_ipv4, client, src, seq![0u8, 0, 0] + typed(ip) + seq![hi, lo] + payload) == (
        if refuse_ipv4 && ip.len() == 4 {
            Relayed::Nothing
        } else {
            Relayed::Forwarded { target: plain_endpoint(ip, port), payload }
        }),
        client_after(client, src) == src,
{
    let a = typed(ip) + seq![hi, lo] + payload;
    law_targets(ip, Seq::empty(), hi, lo, port, payload);
    lemma_joined(seq![0u8, 0, 0], typed(ip), seq![hi, lo], payload);
    lemma_datagram_behind(refuse_ipv4, client, src, a);
    assert(a.skip(3 + ip.len() as int) =~= payload);
}

/// The datagram of a client for a name leads to a lookup of just this name, and then is sent on to the
/// address that was found and just this port, with just the bytes behind them. A name that is not
/// UTF-8 is dropped, and so is an IPv4 target where it is refused.
#[verifier::rlimit(40)]
pub proof fn law_datagrams_to_names(
    refuse_ipv4: bool,
    client: Endpoint,
    src: Endpoint,
    name: Seq<u8>,
    found: Seq<u8>,
    hi: u8,
    lo: u8,
    port: u16,
    payload: Seq<u8>,
)
    requires
        src.ip == client.ip,
        is_port(port, hi, lo),
        name.len() <= 255,
    ensures
        valid_utf8(name) ==> relayed(
            refuse_ipv4,
            client,
            src,
            seq![0u8, 0, 0] + named(name) + seq![hi, lo] + payload,
        ) == (Relayed::Lookup { domain: decode_utf8(name), port, payload }),
        !valid_utf8(name) ==> relayed(
            refuse_ipv4,
            client,
            src,
            seq![0u8, 0, 0] + named(name) + payload,
        ) == Relayed::Nothing,
        forwarded(refuse_ipv4, found, port, payload) == (if refuse_ipv4 && found.len() == 4 {
            Relayed::Nothing
        } else {
            Relayed::Forwarded { target: plain_endpoint(found, port), payload }
        }),
        client_after(client, src) == src,
{
    law_targets(seq![0u8, 0, 0, 0], name, hi, lo, port, payload);
    let b = named(name) + seq![hi, lo] + payload;
    let c = named(name) + payload;
    lemma_joined(seq![0u8, 0, 0], named(name), seq![hi, lo], payload);
    if valid_utf8(name) {
        lemma_datagram_behind(refuse_ipv4, client, src, b);
        assert(b.skip(4 + name.len() as int) =~= payload);
    } else {
        lemma_datagram_behind(refuse_ipv4, client, src, c);
    }
}

proof fn lemma_datagram_behind(refuse_ipv4: bool, client: Endpoint, src: Endpoint, t: Seq<u8>)
    requires
        src.ip == client.ip,
        t.len() > 0,
    ensures
        relayed(refuse_ipv4, client, src, seq![0u8, 0, 0] + t) == (match target_progress(t) {
            TargetProgress::Ready { target: Target::Domain(domain), port, used } => Relayed::Lookup {
                domain,
                port,
                payload: t.skip(used as int),
            },
            TargetProgress::Ready { target: Target::Ip(ip), port, used } => forwarded(
                refuse_ipv4,
                ip,
                port,
                t.skip(used as int),
            ),
            _ => Relayed::Nothing,
        }),
{
    let all = seq![0u8, 0, 0] + t;
    assert(all.skip(3) =~= t);
    lemma_ready_within(t);
    if let TargetProgress::Ready { target, port, used } = target_progress(t) {
        assert(all.skip(3 + used as int) =~= t.skip(used as int));
    }
}

/// A datagram of a client is dropped where one of its first three bytes is not 0, where its type of
/// address is not known, and where it is too short for its address and its port; and only its
/// source is noted.
pub proof fn law_bad_datagrams(refuse_ipv4: bool, client: Endpoint, src: Endpoint, data: Seq<u8>)
    requires
        src.ip == client.ip,
        data.len() < 4 || data[0] != 0 || data[1] != 0 || data[2] != 0 || (data[3] != 1 && data[3]
            != 3 && data[3] != 4) || (data[3] == 1 && data.len() < 10) || (data[3] == 4
            && data.len() < 22) || (data[3] == 3 && (data.len() < 5 || data.len() < 7
            + data[4])),
    ensures
        relayed(refuse_ipv4, client, src, data) == Relayed::Nothing,
        client_after(client, src) == src,
{
    if data.len() >= 4 {
        let rest = data.skip(3);
        assert(rest[0] == data[3]);
        if data.len() >= 5 {
            assert(rest[1] == data[4]);
        }
    }
}

/// A datagram from anywhere else goes to the client behind three zeros, the address and the port
/// that it came from, and the client stays where it was.
pub proof fn law_answers(
    refuse_ipv4: bool,
    client: Endpoint,
    src: Endpoint,
    hi: u8,
    lo: u8,
    data: Seq<u8>,
)
    requires
        src.ip != client.ip,
        is_ip(src.ip),
        is_port(src.port, hi, lo),
    ensures
        relayed(refuse_ipv4, client, src, data) == (Relayed::Returned {
            packet: seq![0u8, 0, 0] + typed(src.ip) + seq![hi, lo] + data,
        }),
        client_after(client, src) == client,
{
    assert(u16_bytes(src.port) =~= seq![hi, lo]);
    assert(wrapped(src, data) =~= seq![0u8, 0, 0] + typed(src.ip) + seq![hi, lo] + data);
}

/// What addresses, and what is to be done about datagrams, stand for.
pub proof fn law_plain_values(
    a: Ipv4Addr,
    b: Ipv6Addr,
    port: u16,
    flowinfo: u32,
    scope_id: u32,
    target: SocketAddr,
    from: usize,
    packet: Vec<u8>,
    domain: String,
    data: Seq<u8>,
)
    ensures
        IpAddr::V4(a)@ == a.octets@,
        IpAddr::V6(b)@ == b.octets@,
        (SocketAddr::V4 { ip: a, port })@ == plain_endpoint(a.octets@, port),
        (SocketAddr::V6 { ip: b, port, flowinfo, scope_id })@ == (Endpoint {
            ip: b.octets@,
            port,
            flowinfo,
            scope_id,
        }),
        is_v4(a@) && !is_v6(a@) && is_v6(b@) && !is_v4(b@),
        (UdpAction::Forward { target, from }).about(data) == (Relayed::Forwarded {
            target: target@,
            payload: data.skip(from as int),
        }),
        (UdpAction::Resolve { domain, port, from }).about(data) == (Relayed::Lookup {
            domain: domain@,
            port,
            payload: data.skip(from as int),
        }),
        (UdpAction::Return { packet }).about(data) == (Relayed::Returned { packet: packet@ }),
        UdpAction::Drop.about(data) == Relayed::Nothing,
{
}

} // verus!
