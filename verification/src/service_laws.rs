//! The commands from beginning to end: what a client asks for, byte by byte, and what is then waited
//! for and told to it.

use vstd::prelude::*;
use vstd::utf8::{decode_utf8, encode_utf8, valid_utf8};
use crate::addr::{unspecified_v4, unspecified_v6, Endpoint};
use crate::config::Settings;
use crate::failure::Failure;
use crate::handshake::{dialogue, law_handshake_goes_on, DialogueStatus};
use crate::request::{fail_bytes, reply_bytes, request_progress, target_progress, RequestProgress};
use crate::request::{Target, TargetProgress};
use crate::session::{demand, first_v6, next_stage, preferred, request_stage, Demand, Happening};
use crate::session::{opened_at, Action, Event, PeerCommand, Stage};
use crate::session_laws::{admitted, heard, heard_next, law_transcript, run, told, Turn};
use crate::wire_laws::{is_ip, is_port, law_address_requests, law_name_requests, law_replies};
use crate::wire_laws::{law_targets, named, plain_endpoint, typed};

verus! {

/// Whether the last thing that happened in a connection completed what has been read from the client
/// to these bytes.
pub open spec fn just_read(s: Settings, turns: Seq<Turn>, input: Seq<u8>) -> bool {
    &&& turns.len() > 0
    &&& heard(s, turns) == input
    &&& heard(s, turns.drop_last()).len() < input.len()
}

/// Two handshakes that have succeeded and start the same bytes are the same.
proof fn lemma_one_handshake(s: Settings, input: Seq<u8>, a: int, b: int)
    requires
        0 <= a <= input.len(),
        0 <= b <= input.len(),
        admitted(s, input.take(a)),
        admitted(s, input.take(b)),
    ensures
        a == b,
{
    if a < b {
        let more = input.subrange(a, b);
        assert(input.take(a) + more =~= input.take(b));
        law_handshake_goes_on(s, input.take(a), more);
    } else if b < a {
        let more = input.subrange(b, a);
        assert(input.take(b) + more =~= input.take(a));
        law_handshake_goes_on(s, input.take(b), more);
    }
}

/// A connection never reads from the handshake into what stands behind it.
proof fn lemma_not_in_handshake(s: Settings, h: Seq<u8>, hello: Seq<u8>, all: Seq<u8>, need: nat)
    requires
        admitted(s, hello),
        hello.is_prefix_of(all),
        h.is_prefix_of(all),
        h.len() + need == all.len(),
        hello.len() < all.len(),
    ensures
        dialogue(s, h).status != DialogueStatus::Need(need),
{
    if h.len() < hello.len() {
        let more = hello.skip(h.len() as int);
        assert(h + more =~= hello);
        law_handshake_goes_on(s, h, more);
    } else {
        let more = h.skip(hello.len() as int);
        assert(hello + more =~= h);
        law_handshake_goes_on(s, hello, more);
    }
}

/// What a connection is in once a request has come in behind a handshake that has succeeded.
proof fn lemma_request_came(s: Settings, turns: Seq<Turn>, hello: Seq<u8>, request: Seq<u8>)
    requires
        admitted(s, hello),
        request.len() > 0,
        just_read(s, turns, hello + request),
    ensures
        run(s, turns) == request_stage(s, request, turns.last().1),
{
    let before = turns.drop_last();
    let h = heard(s, before);
    let st = run(s, before);
    let e = turns.last().0;
    let all = hello + request;
    law_transcript(s, before);
    assert(heard_next(st, e, h) == all);
    let need = demand(st)->Read_0;
    let b = e->Bytes_0;
    assert(h + b == all && b.len() == need);
    assert(h.is_prefix_of(all)) by {
        assert(all.take(h.len() as int) =~= h);
    }
    assert(hello.is_prefix_of(all)) by {
        assert(all.take(hello.len() as int) =~= hello);
    }
    lemma_not_in_handshake(s, h, hello, all, need);
    assert(st is Request);
    let received = st->Request_received;
    let n = choose|n: int|
        0 <= n <= h.len() && admitted(s, #[trigger] h.take(n)) && received == h.skip(n) && told(
            s,
            before,
        ) == dialogue(s, h.take(n)).sent;
    assert(all.take(n) =~= h.take(n));
    assert(all.take(hello.len() as int) =~= hello);
    lemma_one_handshake(s, all, n, hello.len() as int);
    assert(h.len() >= n);
    assert((h + b).skip(n) =~= h.skip(n) + b);
    assert(all.skip(hello.len() as int) =~= request);
}

/// What a connection waits for that is to be made to a target: for an IPv4 target that is refused, that
/// the client is told so; else the connection, for at most 30 seconds, and from a random source where
/// there is one and the target is IPv6.
pub open spec fn dial(s: Settings, target: Endpoint, egress: Option<Seq<u8>>) -> Demand {
    if target.ip.len() == 4 && s.random_egress_ipv6 && s.force_ipv6 {
        Demand::Write(seq![5u8, 2, 0, 1, 0, 0, 0, 0, 0, 0])
    } else {
        Demand::Connect {
            target,
            source: match egress {
                Some(ip) => if target.ip.len() == 16 && s.random_egress_ipv6 {
                    Some(plain_endpoint(ip, 0))
                } else {
                    None
                },
                None => None,
            },
            within_secs: 30,
        }
    }
}

/// A client that asks for a connection to an address behind a handshake that has succeeded gets one to
/// just this address and just this port.
#[verifier::rlimit(50)]
pub proof fn law_connect_to_an_address(
    s: Settings,
    turns: Seq<Turn>,
    hello: Seq<u8>,
    ip: Seq<u8>,
    hi: u8,
    lo: u8,
    port: u16,
)
    requires
        admitted(s, hello),
        is_ip(ip),
        is_port(port, hi, lo),
        just_read(s, turns, hello + (seq![5u8, 1, 0] + typed(ip) + seq![hi, lo])),
    ensures
        demand(run(s, turns)) == dial(s, plain_endpoint(ip, port), turns.last().1),
{
    let request = seq![5u8, 1, 0] + typed(ip) + seq![hi, lo];
    lemma_request_came(s, turns, hello, request);
    let none = Seq::<u8>::empty();
    assert(request + none =~= request);
    law_address_requests(1, ip, hi, lo, port, none);
    lemma_refused(2);
}

/// A client that asks for a connection to a name behind a handshake that has succeeded: just this name
/// is looked up, with just this port.
#[verifier::rlimit(50)]
pub proof fn law_connect_to_a_name(
    s: Settings,
    turns: Seq<Turn>,
    hello: Seq<u8>,
    name: Seq<char>,
    hi: u8,
    lo: u8,
    port: u16,
)
    requires
        admitted(s, hello),
        encode_utf8(name).len() <= 255,
        is_port(port, hi, lo),
        just_read(s, turns, hello + (seq![5u8, 1, 0] + named(encode_utf8(name)) + seq![hi, lo])),
    ensures
        demand(run(s, turns)) == (Demand::Resolve { domain: name, port }),
{
    let bytes = encode_utf8(name);
    let request = seq![5u8, 1, 0] + named(bytes) + seq![hi, lo];
    lemma_request_came(s, turns, hello, request);
    vstd::utf8::encode_utf8_valid_utf8(name);
    vstd::utf8::encode_utf8_decode_utf8(name);
    lemma_name_request(1, bytes, hi, lo, port);
}

proof fn lemma_name_request(command: u8, name: Seq<u8>, hi: u8, lo: u8, port: u16)
    requires
        valid_utf8(name),
        name.len() <= 255,
        is_port(port, hi, lo),
    ensures
        request_progress(seq![5u8, command, 0] + named(name) + seq![hi, lo]) == (
        RequestProgress::Ready {
            command,
            target: Target::Domain(decode_utf8(name)),
            port,
            used: 7 + name.len(),
        }),
{
    let request = seq![5u8, command, 0] + named(name) + seq![hi, lo];
    let none = Seq::<u8>::empty();
    assert(request + none =~= request);
    law_name_requests(command, name, hi, lo, port, none);
}

/// The reply without an address.
proof fn lemma_refused(rep: u8)
    ensures
        fail_bytes(rep) == seq![5u8, rep, 0, 1, 0, 0, 0, 0, 0, 0],
{
    law_replies(rep, plain_endpoint(seq![0u8, 0, 0, 0], 0), 0, 0);
}

/// Where the first IPv6 address stands in a list.
proof fn lemma_first_v6(list: Seq<Endpoint>, from: int)
    requires
        0 <= from <= list.len(),
    ensures
        from <= first_v6(list, from) <= list.len(),
        first_v6(list, from) < list.len() ==> list[first_v6(list, from)].ip.len() == 16,
        forall|i: int| from <= i < first_v6(list, from) ==> (#[trigger] list[i]).ip.len() != 16,
    decreases list.len() - from,
{
    if from < list.len() && list[from].ip.len() != 16 {
        lemma_first_v6(list, from + 1);
    }
}

/// Whether one of the addresses of a name is the one to use: the first, but the first IPv6 address
/// where sources are random and there is one.
pub open spec fn is_choice(s: Settings, list: Seq<Endpoint>, k: int) -> bool {
    &&& 0 <= k < list.len()
    &&& if s.random_egress_ipv6 && exists|i: int| 0 <= i < list.len() && (#[trigger] list[i]).ip.len()
        == 16 {
        list[k].ip.len() == 16 && forall|i: int|
            0 <= i < k ==> (#[trigger] list[i]).ip.len() != 16
    } else {
        k == 0
    }
}

/// A name that has been looked up is connected to at the right one of its addresses, as it was found
/// and with the port that was found with it. A name without an address, or that cannot be looked up,
/// is answered by a reply, behind which the connection is closed.
#[verifier::rlimit(50)]
pub proof fn law_looked_up(
    s: Settings,
    st: Stage,
    list: Seq<Endpoint>,
    k: int,
    egress: Option<Seq<u8>>,
    later: Option<Seq<u8>>,
)
    requires
        demand(st) is Resolve,
    ensures
        is_choice(s, list, k) ==> demand(next_stage(s, st, Happening::Addresses(list), egress))
            == dial(s, list[k], egress),
        list.len() == 0 ==> {
            let told = next_stage(s, st, Happening::Addresses(list), egress);
            &&& demand(told) == Demand::Write(seq![5u8, 4, 0, 1, 0, 0, 0, 0, 0, 0])
            &&& demand(next_stage(s, told, Happening::Done, later)) == (Demand::Close {
                failure: Some(Failure::NoAddressFound),
            })
        },
        ({
            let told = next_stage(s, st, Happening::Failed, egress);
            &&& demand(told) == Demand::Write(seq![5u8, 4, 0, 1, 0, 0, 0, 0, 0, 0])
            &&& demand(next_stage(s, told, Happening::Done, later)) == (Demand::Close {
                failure: Some(Failure::Io),
            })
        }),
{
    lemma_refused(2);
    lemma_refused(4);
    lemma_first_v6(list, 0);
    if is_choice(s, list, k) {
        let first = first_v6(list, 0);
        if s.random_egress_ipv6 && first < list.len() {
            assert(list[first].ip.len() == 16);
            if k < first {
                assert(list[k].ip.len() != 16);
            }
            assert(k == first);
        } else if s.random_egress_ipv6 {
            assert(forall|i: int| 0 <= i < list.len() ==> (#[trigger] list[i]).ip.len() != 16);
        }
        assert(preferred(list, s.random_egress_ipv6) == list[k]);
    }
}

/// Whether some bytes are the reply that a command was carried out at an address and a port: they are
/// just these, and read back as just these.
pub open spec fn is_success(bytes: Seq<u8>, at: Endpoint) -> bool {
    &&& exists|hi: u8, lo: u8| #[trigger]
        is_port(at.port, hi, lo) && bytes == seq![5u8, 0, 0] + typed(at.ip) + seq![hi, lo]
    &&& target_progress(bytes.skip(3)) == (TargetProgress::Ready {
        target: Target::Ip(at.ip),
        port: at.port,
        used: (bytes.len() - 3) as nat,
    })
}

proof fn lemma_success(at: Endpoint)
    requires
        is_ip(at.ip),
    ensures
        is_success(reply_bytes(0, at), at),
{
    let hi = (at.port / 256) as u8;
    let lo = (at.port % 256) as u8;
    assert(is_port(at.port, hi, lo));
    law_replies(0, at, hi, lo);
    let none = Seq::<u8>::empty();
    law_targets(at.ip, none, hi, lo, at.port, none);
    let bytes = seq![5u8, 0, 0] + typed(at.ip) + seq![hi, lo];
    assert(bytes.skip(3) =~= typed(at.ip) + seq![hi, lo] + none);
}

/// A connection that comes about: the client is told just the address and the port that it is made
/// from, and then the bytes are relayed.
pub proof fn law_connected(
    s: Settings,
    st: Stage,
    local: Endpoint,
    egress: (Option<Seq<u8>>, Option<Seq<u8>>, Option<Seq<u8>>),
)
    requires
        demand(st) is Connect,
        is_ip(local.ip),
    ensures
        ({
            let there = next_stage(s, st, Happening::Done, egress.0);
            let told = next_stage(s, there, Happening::Address(local), egress.1);
            let relay = next_stage(s, told, Happening::Done, egress.2);
            &&& demand(there) == Demand::LocalAddress
            &&& demand(told) matches Demand::Write(bytes) && is_success(bytes, local)
            &&& demand(relay) == Demand::Relay
        }),
{
    lemma_success(local);
}

/// A connection that does not come about, or not in time, is answered by a reply, behind which the
/// connection is closed.
pub proof fn law_not_connected(
    s: Settings,
    st: Stage,
    egress: Option<Seq<u8>>,
    later: Option<Seq<u8>>,
)
    requires
        demand(st) is Connect,
    ensures
        ({
            let failed = next_stage(s, st, Happening::Failed, egress);
            let late = next_stage(s, st, Happening::TimedOut, egress);
            let reply = Demand::Write(seq![5u8, 5, 0, 1, 0, 0, 0, 0, 0, 0]);
            &&& demand(failed) == reply && demand(late) == reply
            &&& demand(next_stage(s, failed, Happening::Done, later)) == (Demand::Close {
                failure: Some(Failure::Io),
            })
            &&& demand(next_stage(s, late, Happening::Done, later)) == (Demand::Close {
                failure: Some(Failure::ConnectTimedOut),
            })
        }),
{
    lemma_refused(5);
}

/// Where IPv4 targets are refused, the connection is closed behind the reply.
#[verifier::rlimit(50)]
pub proof fn law_refused_target(
    s: Settings,
    turns: Seq<Turn>,
    hello: Seq<u8>,
    ip: Seq<u8>,
    hi: u8,
    lo: u8,
    port: u16,
    later: Option<Seq<u8>>,
)
    requires
        admitted(s, hello),
        ip.len() == 4,
        s.random_egress_ipv6,
        s.force_ipv6,
        is_port(port, hi, lo),
        just_read(s, turns, hello + (seq![5u8, 1, 0] + typed(ip) + seq![hi, lo])),
    ensures
        demand(next_stage(s, run(s, turns), Happening::Done, later)) == (Demand::Close {
            failure: Some(Failure::Ipv4Refused),
        }),
{
    let request = seq![5u8, 1, 0] + typed(ip) + seq![hi, lo];
    lemma_request_came(s, turns, hello, request);
    let none = Seq::<u8>::empty();
    assert(request + none =~= request);
    law_address_requests(1, ip, hi, lo, port, none);
}

/// The bytes of a request for an address.
pub open spec fn address_request(command: u8, ip: Seq<u8>, hi: u8, lo: u8) -> Seq<u8> {
    seq![5u8, command, 0] + typed(ip) + seq![hi, lo]
}

/// The bytes of a request for a name.
pub open spec fn name_request(command: u8, name: Seq<u8>, hi: u8, lo: u8) -> Seq<u8> {
    seq![5u8, command, 0] + named(name) + seq![hi, lo]
}

/// Whether some bytes are a request with a command, whatever its address or its name and its port
/// are.
pub open spec fn asks(request: Seq<u8>, command: u8) -> bool {
    ||| exists|ip: Seq<u8>, hi: u8, lo: u8|
        is_ip(ip) && request == #[trigger] address_request(command, ip, hi, lo)
    ||| exists|name: Seq<u8>, hi: u8, lo: u8|
        name.len() <= 255 && valid_utf8(name) && request == #[trigger] name_request(
            command,
            name,
            hi,
            lo,
        )
}

proof fn lemma_asks(request: Seq<u8>, command: u8)
    requires
        asks(request, command),
    ensures
        request.len() > 0,
        request_progress(request) is Ready,
        request_progress(request)->command == command,
{
    let none = Seq::<u8>::empty();
    assert(request + none =~= request);
    if exists|ip: Seq<u8>, hi: u8, lo: u8|
        is_ip(ip) && request == #[trigger] address_request(command, ip, hi, lo) {
        let (ip, hi, lo) = choose|ip: Seq<u8>, hi: u8, lo: u8|
            is_ip(ip) && request == #[trigger] address_request(command, ip, hi, lo);
        law_address_requests(command, ip, hi, lo, (hi * 256 + lo) as u16, none);
    } else {
        let (name, hi, lo) = choose|name: Seq<u8>, hi: u8, lo: u8|
            name.len() <= 255 && valid_utf8(name) && request == #[trigger] name_request(
                command,
                name,
                hi,
                lo,
            );
        lemma_name_request(command, name, hi, lo, (hi * 256 + lo) as u16);
    }
}

/// Where a port is opened for a client: anywhere in the family that the client connects over; but for
/// IPv6, at the random address where sources are random and there is one.
pub open spec fn open_place(s: Settings, peer: Endpoint, egress: Option<Seq<u8>>) -> Endpoint {
    if peer.ip.len() == 16 {
        match egress {
            Some(ip) => if s.random_egress_ipv6 {
                plain_endpoint(ip, 0)
            } else {
                plain_endpoint(seq![0u8, 0, 0, 0, 0, 0, 0, 0, 0, 0, 0, 0, 0, 0, 0, 0], 0)
            },
            None => plain_endpoint(seq![0u8, 0, 0, 0, 0, 0, 0, 0, 0, 0, 0, 0, 0, 0, 0, 0], 0),
        }
    } else {
        plain_endpoint(seq![0u8, 0, 0, 0], 0)
    }
}

proof fn lemma_open_place(s: Settings, peer: Endpoint, egress: Option<Seq<u8>>)
    ensures
        opened_at(s, peer, egress) == open_place(s, peer, egress),
{
    assert(unspecified_v4() =~= seq![0u8, 0, 0, 0]);
    assert(unspecified_v6() =~= seq![
        0u8, 0, 0, 0, 0, 0, 0, 0, 0, 0, 0, 0, 0, 0, 0, 0,
    ]);
}

/// A client that asks for a connection to be waited for: a port is opened for it, of which it is told
/// just the address and the port; one connection to it is waited for, for at most 120 seconds; the
/// client is told just where it comes from; and then the bytes are relayed. If nobody comes in time,
/// it is told so, with the address and the port that it was told before, and the connection is closed.
#[verifier::rlimit(50)]
pub proof fn law_bind(
    s: Settings,
    turns: Seq<Turn>,
    hello: Seq<u8>,
    request: Seq<u8>,
    peer: Endpoint,
    local: Endpoint,
    from: Endpoint,
    egress: Option<Seq<u8>>,
    later: Option<Seq<u8>>,
)
    requires
        admitted(s, hello),
        asks(request, 2),
        just_read(s, turns, hello + request),
        is_ip(local.ip),
        is_ip(from.ip),
    ensures
        ({
            let asked = run(s, turns);
            let open = next_stage(s, asked, Happening::Address(peer), egress);
            let told = next_stage(s, open, Happening::Address(local), later);
            let wait = next_stage(s, told, Happening::Done, later);
            let came = next_stage(s, wait, Happening::Address(from), later);
            let late = next_stage(s, wait, Happening::TimedOut, later);
            &&& demand(asked) == Demand::PeerAddress
            &&& demand(open) == (Demand::Listen { at: open_place(s, peer, egress), backlog: 1024 })
            &&& demand(told) matches Demand::Write(bytes) && is_success(bytes, local)
            &&& demand(wait) == (Demand::Accept { within_secs: 120 })
            &&& demand(came) matches Demand::Write(bytes) && is_success(bytes, from)
            &&& demand(next_stage(s, came, Happening::Done, later)) == Demand::Relay
            &&& demand(late) matches Demand::Write(bytes) && exists|hi: u8, lo: u8| #[trigger]
                is_port(local.port, hi, lo) && bytes == seq![5u8, 5, 0] + typed(local.ip) + seq![
                    hi,
                    lo,
                ]
            &&& demand(next_stage(s, late, Happening::Done, later)) == (Demand::Close {
                failure: Some(Failure::BindTimedOut),
            })
        }),
{
    lemma_command_begins(s, turns, hello, request, 2);
    lemma_open_place(s, peer, egress);
    lemma_success(local);
    lemma_success(from);
    lemma_nobody_came(local);
}

/// What is begun for a client that asks for a connection to be waited for, or for datagrams to be
/// relayed.
proof fn lemma_command_begins(
    s: Settings,
    turns: Seq<Turn>,
    hello: Seq<u8>,
    request: Seq<u8>,
    command: u8,
)
    requires
        admitted(s, hello),
        asks(request, command),
        command == 2 || command == 3,
        just_read(s, turns, hello + request),
    ensures
        run(s, turns) == (Stage::Peer {
            command: if command == 2 {
                PeerCommand::Bind
            } else {
                PeerCommand::UdpAssociate
            },
        }),
{
    lemma_asks(request, command);
    lemma_request_came(s, turns, hello, request);
}

proof fn lemma_nobody_came(local: Endpoint)
    requires
        is_ip(local.ip),
    ensures
        exists|hi: u8, lo: u8| #[trigger]
            is_port(local.port, hi, lo) && reply_bytes(5, local) == seq![5u8, 5, 0] + typed(local.ip)
                + seq![hi, lo],
{
    let hi = (local.port / 256) as u8;
    let lo = (local.port % 256) as u8;
    assert(is_port(local.port, hi, lo));
    law_replies(5, local, hi, lo);
}

/// A client that asks for datagrams to be relayed: a port is opened for them, of which the client is
/// told just the address and the port, and then the datagrams of this client are relayed for as long
/// as it keeps the connection, whatever it sends over it, or until the relay ends.
#[verifier::rlimit(50)]
pub proof fn law_udp_associate(
    s: Settings,
    turns: Seq<Turn>,
    hello: Seq<u8>,
    request: Seq<u8>,
    peer: Endpoint,
    local: Endpoint,
    egress: Option<Seq<u8>>,
    later: Option<Seq<u8>>,
    stray: Seq<u8>,
)
    requires
        admitted(s, hello),
        asks(request, 3),
        just_read(s, turns, hello + request),
        is_ip(local.ip),
    ensures
        ({
            let asked = run(s, turns);
            let open = next_stage(s, asked, Happening::Address(peer), egress);
            let told = next_stage(s, open, Happening::Address(local), later);
            let relay = next_stage(s, told, Happening::Done, later);
            let over = Demand::Close { failure: None };
            &&& demand(asked) == Demand::PeerAddress
            &&& demand(open) == (Demand::OpenUdp { at: open_place(s, peer, egress) })
            &&& demand(told) matches Demand::Write(bytes) && is_success(bytes, local)
            &&& demand(relay) == (Demand::RelayUdp { client: peer })
            &&& demand(next_stage(s, relay, Happening::Bytes(stray), later)) == (if stray.len() == 0 {
                over
            } else {
                demand(relay)
            })
            &&& demand(next_stage(s, relay, Happening::Done, later)) == over
            &&& demand(next_stage(s, relay, Happening::Failed, later)) == over
        }),
{
    lemma_command_begins(s, turns, hello, request, 3);
    lemma_open_place(s, peer, egress);
    lemma_success(local);
}

/// Any other command is answered by a reply, behind which the connection is closed.
pub proof fn law_other_commands(
    s: Settings,
    turns: Seq<Turn>,
    hello: Seq<u8>,
    request: Seq<u8>,
    command: u8,
    later: Option<Seq<u8>>,
)
    requires
        admitted(s, hello),
        asks(request, command),
        command != 1,
        command != 2,
        command != 3,
        just_read(s, turns, hello + request),
    ensures
        demand(run(s, turns)) == Demand::Write(seq![5u8, 7, 0, 1, 0, 0, 0, 0, 0, 0]),
        demand(next_stage(s, run(s, turns), Happening::Done, later)) == (Demand::Close {
            failure: Some(Failure::UnsupportedCommand),
        }),
{
    lemma_asks(request, command);
    lemma_request_came(s, turns, hello, request);
    lemma_refused(7);
}

/// What is not a request behind a handshake that has succeeded ends the connection at once, for what
/// is wrong with it; and while a request is not complete, more of it is read.
pub proof fn law_bad_requests(s: Settings, turns: Seq<Turn>, hello: Seq<u8>, request: Seq<u8>)
    requires
        admitted(s, hello),
        request.len() > 0,
        just_read(s, turns, hello + request),
    ensures
        request_progress(request) matches RequestProgress::Refused(f) ==> demand(run(s, turns)) == (
        Demand::Close { failure: Some(f) }),
        request_progress(request) matches RequestProgress::Need(n) ==> demand(run(s, turns))
            == Demand::Read(n),
{
    lemma_request_came(s, turns, hello, request);
}

/// In every connection: where a port has been opened, or a connection has come about or come in, the
/// client is told just the address and the port of it.
pub proof fn law_told_where(s: Settings, st: Stage, at: Endpoint, egress: Option<Seq<u8>>)
    requires
        demand(st) is OpenUdp || demand(st) is LocalAddress || demand(st) is Listen || demand(
            st,
        ) is Accept,
        is_ip(at.ip),
    ensures
        demand(next_stage(s, st, Happening::Address(at), egress)) matches Demand::Write(bytes)
            && is_success(bytes, at),
{
    lemma_success(at);
}

/// A handshake that is refused is answered as far as it has an answer, and then the connection is
/// closed for the reason; one that succeeds is answered, and then the first byte of the request is
/// read.
pub proof fn law_handshake_comes_to_an_end(s: Settings, turns: Seq<Turn>, later: Option<Seq<u8>>)
    requires
        turns.len() > 0,
        run(s, turns.drop_last()) is Handshake,
        heard(s, turns.drop_last()).len() < heard(s, turns).len(),
    ensures
        ({
            let d = dialogue(s, heard(s, turns));
            let st = run(s, turns);
            let after = if told(s, turns).len() < d.sent.len() {
                next_stage(s, st, Happening::Done, later)
            } else {
                st
            };
            &&& told(s, turns).len() < d.sent.len() ==> demand(st) == Demand::Write(
                d.sent.skip(told(s, turns).len() as int),
            )
            &&& told(s, turns).is_prefix_of(d.sent)
            &&& d.status matches DialogueStatus::Refused(f) ==> demand(after) == (Demand::Close {
                failure: Some(f),
            })
            &&& d.status is Accepted ==> demand(after) == Demand::Read(1)
            &&& d.status matches DialogueStatus::Need(n) ==> demand(after) == Demand::Read(n)
        }),
{
    let before = turns.drop_last();
    law_transcript(s, before);
    let h = heard(s, before);
    let b = turns.last().0->Bytes_0;
    assert(heard(s, turns) == h + b);
    law_handshake_goes_on(s, h, b);
}

/// Whether an event is an answer to what is waited for.
pub open spec fn answers(d: Demand, e: Happening) -> bool {
    match d {
        Demand::Read(n) => e is TimedOut || e is Failed || (e matches Happening::Bytes(b) && b.len()
            == n),
        Demand::Write(_) => e is Done || e is TimedOut || e is Failed,
        Demand::PeerAddress | Demand::LocalAddress | Demand::Listen { .. } | Demand::OpenUdp {
            ..
        } => e is Address || e is Failed,
        Demand::Resolve { .. } => e is Addresses || e is Failed,
        Demand::Connect { .. } => e is Done || e is TimedOut || e is Failed,
        Demand::Accept { .. } => e is Address || e is TimedOut || e is Failed,
        Demand::Relay => e is Done || e is TimedOut || e is Failed,
        Demand::RelayUdp { .. } => e is Bytes || e is Done || e is Failed,
        Demand::Close { .. } => false,
    }
}

/// What is no answer to what is waited for changes nothing.
pub proof fn law_no_answers(s: Settings, st: Stage, e: Happening, egress: Option<Seq<u8>>)
    requires
        !answers(demand(st), e),
    ensures
        next_stage(s, st, e, egress) == st,
{
}

/// Where reading, writing, opening a port, accepting or relaying bytes fails, the connection is
/// closed for that.
pub proof fn law_failures_end(s: Settings, st: Stage, egress: Option<Seq<u8>>)
    requires
        demand(st) is Read || demand(st) is Write || demand(st) is PeerAddress || demand(st)
            is LocalAddress || demand(st) is Listen || demand(st) is Accept || demand(st) is OpenUdp
            || demand(st) is Relay,
    ensures
        demand(next_stage(s, st, Happening::Failed, egress)) == (Demand::Close {
            failure: Some(Failure::Io),
        }),
{
}

/// Bytes are relayed until that ends, which closes the connection, or until nothing has been passed on
/// for too long, which closes it for that.
pub proof fn law_end_of_relay(s: Settings, st: Stage, egress: Option<Seq<u8>>)
    requires
        demand(st) is Relay,
    ensures
        demand(next_stage(s, st, Happening::Done, egress)) == (Demand::Close { failure: None }),
        demand(next_stage(s, st, Happening::TimedOut, egress)) == (Demand::Close {
            failure: Some(Failure::IdleTimedOut),
        }),
{
}

/// What the actions and the events stand for.
pub proof fn law_actions_and_events(a: Action, e: Event)
    ensures
        a matches Action::Read(n) ==> a@ == Demand::Read(n as nat),
        a matches Action::Write(b) ==> a@ == Demand::Write(b@),
        a matches Action::Resolve { domain, port } ==> a@ == (Demand::Resolve {
            domain: domain@,
            port,
        }),
        a matches Action::Connect { target, source, within_secs } ==> (a@ matches Demand::Connect {
            target: t,
            source: f,
            within_secs: w,
        } && t == target@ && w == within_secs && (source is Some <==> f is Some) && (source is Some
            ==> f->0 == source->0@)),
        a matches Action::Listen { at, backlog } ==> a@ == (Demand::Listen { at: at@, backlog }),
        a matches Action::Accept { within_secs } ==> a@ == (Demand::Accept { within_secs }),
        a matches Action::OpenUdp { at } ==> a@ == (Demand::OpenUdp { at: at@ }),
        a matches Action::RelayUdp { client } ==> a@ == (Demand::RelayUdp { client: client@ }),
        a matches Action::Close { failure } ==> a@ == (Demand::Close { failure }),
        e matches Event::Bytes(b) ==> e@ == Happening::Bytes(b@),
        e matches Event::Address(x) ==> e@ == Happening::Address(x@),
        e matches Event::Addresses(v) ==> (e@ matches Happening::Addresses(l) && l.len() == v@.len()
            && forall|i: int| 0 <= i < v@.len() ==> #[trigger] l[i] == v@[i]@),
        e is Done ==> e@ == Happening::Done,
        e is TimedOut ==> e@ == Happening::TimedOut,
        e is Failed ==> e@ == Happening::Failed,
{
}

} // verus!
