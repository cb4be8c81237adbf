//! Relaying datagrams.
//!
//! A datagram that comes from the address of the client carries a header with its target. Any
//! other datagram is an answer for the client, and gets a header with where it comes from.

use vstd::prelude::*;
use crate::addr::{append_bytes, endpoint, is_v4, is_v6, Endpoint, IpAddr, SocketAddr};
use crate::config::Config;
use crate::pump::NANOS;
use crate::request::{address_bytes, append_address, law_address_round_trip, lemma_ready_within};
use crate::request::{read_target_addr, target_progress, Target, TargetAddr, TargetProgress};
use crate::request::TargetStatus;

verus! {

/// How many bytes the buffer for a datagram holds, which is enough for every datagram.
pub const DATAGRAM_BUFFER: usize = 65536;

/// A relay of datagrams for one client.
#[derive(Debug, PartialEq, Eq)]
pub struct UdpRelay {
    /// Where the datagrams of the client come from, and where answers go.
    pub client: SocketAddr,
    /// Whether IPv4 targets are refused.
    pub refuse_ipv4: bool,
    /// For how many seconds no datagram may come, where that is limited.
    pub idle_timeout: Option<u64>,
}

/// What is to be done about a datagram. Where its payload is passed on, it starts at `from`.
#[derive(Debug, PartialEq, Eq)]
pub enum UdpAction {
    /// Nothing.
    Drop,
    /// Look up the addresses of a name, and go on with [`UdpRelay::resolved`].
    Resolve { domain: String, port: u16, from: usize },
    /// Send the payload to the target.
    Forward { target: SocketAddr, from: usize },
    /// Send this packet to the client.
    Return { packet: Vec<u8> },
}

/// What happens to a relay, apart from what the datagrams hold.
#[derive(Clone, Copy, Debug, PartialEq, Eq, Structural)]
pub enum RelayEvent {
    /// A datagram has come, from anywhere and with whatever in it.
    Datagram,
    /// A datagram could not be passed on: its name has no address, or sending it failed.
    NotDelivered,
    /// Receiving failed.
    ReceiveFailed,
    /// No datagram has come for so many nanoseconds.
    Quiet(u128),
}

/// Whether a relay ends with an event: receiving fails, or no datagram has come for as long as
/// the limit says, where there is one.
pub open spec fn relay_ends(idle_timeout: Option<u64>, event: RelayEvent) -> bool {
    match event {
        RelayEvent::Datagram | RelayEvent::NotDelivered => false,
        RelayEvent::ReceiveFailed => true,
        RelayEvent::Quiet(nanos) => idle_timeout matches Some(secs) && nanos >= secs * NANOS,
    }
}

/// What a [`UdpAction`] about a datagram stands for.
#[verifier::ext_equal]
pub enum Relayed {
    Nothing,
    Lookup { domain: Seq<char>, port: u16, payload: Seq<u8> },
    Forwarded { target: Endpoint, payload: Seq<u8> },
    Returned { packet: Seq<u8> },
}

impl UdpAction {
    /// What this action about a datagram stands for.
    pub open spec fn about(self, data: Seq<u8>) -> Relayed {
        match self {
            UdpAction::Drop => Relayed::Nothing,
            UdpAction::Resolve { domain, port, from } => Relayed::Lookup {
                domain: domain@,
                port,
                payload: data.skip(from as int),
            },
            UdpAction::Forward { target, from } => Relayed::Forwarded {
                target: target@,
                payload: data.skip(from as int),
            },
            UdpAction::Return { packet } => Relayed::Returned { packet: packet@ },
        }
    }
}

/// The target, the port and the payload of a datagram from the client: two reserved bytes and the
/// number of the fragment, all 0, then the address and the port, then the payload.
pub open spec fn unwrapped(data: Seq<u8>) -> Option<(Target, u16, Seq<u8>)> {
    if data.len() < 4 || data[0] != 0 || data[1] != 0 || data[2] != 0 {
        None
    } else {
        match target_progress(data.skip(3)) {
            TargetProgress::Ready { target, port, used } => Some(
                (target, port, data.skip(3 + used as int)),
            ),
            _ => None,
        }
    }
}

/// The packet that an answer is sent to the client in.
pub open spec fn wrapped(src: Endpoint, data: Seq<u8>) -> Seq<u8> {
    seq![0u8, 0, 0] + address_bytes(src) + data
}

/// What becomes of a payload whose target is known.
pub open spec fn forwarded(refuse_ipv4: bool, ip: Seq<u8>, port: u16, payload: Seq<u8>) -> Relayed {
    if refuse_ipv4 && is_v4(ip) {
        Relayed::Nothing
    } else {
        Relayed::Forwarded { target: endpoint(ip, port), payload }
    }
}

/// What becomes of a datagram.
pub open spec fn relayed(refuse_ipv4: bool, client: Endpoint, src: Endpoint, data: Seq<u8>) -> Relayed {
    if src.ip == client.ip {
        match unwrapped(data) {
            None => Relayed::Nothing,
            Some((Target::Domain(domain), port, payload)) => Relayed::Lookup {
                domain,
                port,
                payload,
            },
            Some((Target::Ip(ip), port, payload)) => forwarded(refuse_ipv4, ip, port, payload),
        }
    } else {
        Relayed::Returned { packet: wrapped(src, data) }
    }
}

/// Where the client is after a datagram: where it came from, if it came from the address of the
/// client.
pub open spec fn client_after(client: Endpoint, src: Endpoint) -> Endpoint {
    if src.ip == client.ip {
        src
    } else {
        client
    }
}

impl UdpRelay {
    /// A relay for the client that is connected from `client`.
    pub fn new(config: &Config, client: SocketAddr) -> (r: UdpRelay)
        ensures
            r.client@ == client@,
            r.refuse_ipv4 == config@.refuses_ipv4(),
            r.idle_timeout == config@.idle_limit(),
    {
        UdpRelay {
            client,
            refuse_ipv4: config.refuses_ipv4(),
            idle_timeout: config.idle_timeout(),
        }
    }

    /// Whether the relay goes on after an event.
    pub fn goes_on(&self, event: RelayEvent) -> (r: bool)
        ensures
            r == !relay_ends(self.idle_timeout, event),
    {
        match event {
            RelayEvent::Datagram | RelayEvent::NotDelivered => true,
            RelayEvent::ReceiveFailed => false,
            RelayEvent::Quiet(nanos) => match self.idle_timeout {
                None => true,
                Some(secs) => {
                    assert(secs * NANOS <= 0xffff_ffff_ffff_ffff * 1_000_000_000)
                        by (nonlinear_arith)
                        requires
                            0 <= secs <= 0xffff_ffff_ffff_ffff,
                            NANOS == 1_000_000_000,
                    ;
                    nanos < secs as u128 * NANOS
                },
            },
        }
    }

    /// What is to be done about a datagram that came from `src`.
    pub fn udp_relay(&mut self, src: SocketAddr, data: &[u8]) -> (r: UdpAction)
        ensures
            r.about(data@) == relayed(old(self).refuse_ipv4, old(self).client@, src@, data@),
            final(self).client@ == client_after(old(self).client@, src@),
            final(self).refuse_ipv4 == old(self).refuse_ipv4,
            final(self).idle_timeout == old(self).idle_timeout,
            r matches UdpAction::Forward { from, .. } ==> from <= data@.len(),
            r matches UdpAction::Resolve { from, .. } ==> from <= data@.len(),
    {
        if src.ip().same(&self.client.ip()) {
            self.client = src;
            if data.len() < 4 || data[0] != 0 || data[1] != 0 || data[2] != 0 {
                return UdpAction::Drop;
            }
            let rest = vstd::slice::slice_subrange(data, 3, data.len());
            assert(rest@ =~= data@.skip(3));
            proof {
                lemma_ready_within(rest@);
            }
            match read_target_addr(rest) {
                TargetStatus::Ready { target, port, used } => match target {
                    TargetAddr::Domain(domain) => UdpAction::Resolve {
                        domain,
                        port,
                        from: 3 + used,
                    },
                    TargetAddr::Ip(ip) => self.resolved(Some(ip), port, 3 + used),
                },
                _ => UdpAction::Drop,
            }
        } else {
            let mut packet: Vec<u8> = Vec::new();
            packet.push(0);
            packet.push(0);
            packet.push(0);
            assert(packet@ =~= seq![0u8, 0, 0]);
            append_address(&mut packet, &src);
            append_bytes(&mut packet, data);
            UdpAction::Return { packet }
        }
    }

    /// What is to be done about a datagram once the address of its target is known. For a name,
    /// `answer` is the first address that was found for it, if one was; the port, and where the
    /// payload starts, are those that the lookup was asked for with.
    pub fn resolved(&self, answer: Option<IpAddr>, port: u16, from: usize) -> (r: UdpAction)
        ensures
            forall|data: Seq<u8>| #[trigger]
                r.about(data) == match answer {
                    None => Relayed::Nothing,
                    Some(ip) => forwarded(
                        self.refuse_ipv4,
                        ip@,
                        port,
                        data.skip(from as int),
                    ),
                },
            r matches UdpAction::Forward { from: f, .. } ==> f == from,
    {
        match answer {
            None => UdpAction::Drop,
            Some(ip) => {
                if self.refuse_ipv4 && !ip.is_ipv6() {
                    UdpAction::Drop
                } else {
                    UdpAction::Forward { target: SocketAddr::new(ip, port), from }
                }
            },
        }
    }
}

/// What the client gets for an answer reads back as where the answer came from and what it held.
pub proof fn law_answers_read_back(src: Endpoint, data: Seq<u8>)
    requires
        is_v4(src.ip) || is_v6(src.ip),
    ensures
        unwrapped(wrapped(src, data)) == Some((Target::Ip(src.ip), src.port, data)),
{
    let packet = wrapped(src, data);
    law_address_round_trip(src, data);
    assert(packet.skip(3) =~= address_bytes(src) + data);
    assert(packet.skip(3 + address_bytes(src).len() as int) =~= data);
}

/// A payload that the client sends to an address is what the target gets, whatever it holds, and
/// the answer that comes back gets to the port that the client sent from. The target must not be
/// one that is refused.
pub proof fn law_datagrams_pass(
    refuse_ipv4: bool,
    client: Endpoint,
    src: Endpoint,
    target: Endpoint,
    payload: Seq<u8>,
    answer: Seq<u8>,
)
    requires
        is_v4(target.ip) || is_v6(target.ip),
        refuse_ipv4 ==> !is_v4(target.ip),
        src.ip == client.ip,
        target.ip != client.ip,
    ensures
        relayed(refuse_ipv4, client, src, wrapped(target, payload)) == (Relayed::Forwarded {
            target: endpoint(target.ip, target.port),
            payload,
        }),
        client_after(client, src) == src,
        relayed(refuse_ipv4, client_after(client, src), target, answer) == (Relayed::Returned {
            packet: wrapped(target, answer),
        }),
{
    law_answers_read_back(target, payload);
}

/// A datagram from elsewhere does not change where the client is.
pub proof fn law_strangers_are_not_the_client(client: Endpoint, src: Endpoint)
    requires
        src.ip != client.ip,
    ensures
        client_after(client, src) == client,
{
}

/// Fragments are not relayed.
pub proof fn law_fragments_are_dropped(refuse_ipv4: bool, client: Endpoint, src: Endpoint, data: Seq<u8>)
    requires
        src.ip == client.ip,
        data.len() >= 3,
        data[2] != 0,
    ensures
        relayed(refuse_ipv4, client, src, data) == Relayed::Nothing,
{
}

/// Where IPv4 targets are refused, no payload is sent to one, neither at once nor after a lookup.
pub proof fn law_no_ipv4_payloads(client: Endpoint, src: Endpoint, data: Seq<u8>, answer: Seq<u8>, port: u16)
    ensures
        relayed(true, client, src, data) matches Relayed::Forwarded { target, .. } ==> !is_v4(
            target.ip,
        ),
        forwarded(true, answer, port, data) matches Relayed::Forwarded { target, .. } ==> !is_v4(
            target.ip,
        ),
{
}

/// One thing that happens to a relay. Of a datagram that has come: where it came from and what it
/// holds, the address found for its name if it has to be looked up and one is found, and whether
/// what it leads to can be sent.
pub enum RelayTurn {
    Datagram { src: Endpoint, data: Seq<u8>, found: Option<Seq<u8>>, sent: bool },
    ReceiveFailed,
    Quiet(u128),
}

/// What becomes of a datagram, with the address that is found for its name.
pub open spec fn delivered(
    refuse_ipv4: bool,
    client: Endpoint,
    src: Endpoint,
    data: Seq<u8>,
    found: Option<Seq<u8>>,
) -> Relayed {
    match (relayed(refuse_ipv4, client, src, data), found) {
        (Relayed::Lookup { .. }, None) => Relayed::Nothing,
        (Relayed::Lookup { port, payload, .. }, Some(ip)) => forwarded(
            refuse_ipv4,
            ip,
            port,
            payload,
        ),
        (other, _) => other,
    }
}

/// The events that a turn consists of, in order: a datagram comes, and then it may not be passed on.
pub open spec fn events_of(
    refuse_ipv4: bool,
    client: Endpoint,
    turn: RelayTurn,
) -> Seq<RelayEvent> {
    match turn {
        RelayTurn::Datagram { src, data, found, sent } => if sent && !(delivered(
            refuse_ipv4,
            client,
            src,
            data,
            found,
        ) is Nothing) {
            seq![RelayEvent::Datagram]
        } else {
            seq![RelayEvent::Datagram, RelayEvent::NotDelivered]
        },
        RelayTurn::ReceiveFailed => seq![RelayEvent::ReceiveFailed],
        RelayTurn::Quiet(nanos) => seq![RelayEvent::Quiet(nanos)],
    }
}

/// A relay after all that happened to it: where its client is, and whether it has ended.
#[verifier::ext_equal]
pub struct Relaying {
    pub client: Endpoint,
    pub ended: bool,
}

/// A relay after all that happened to it.
pub open spec fn relay_after(
    refuse_ipv4: bool,
    idle_timeout: Option<u64>,
    client: Endpoint,
    turns: Seq<RelayTurn>,
) -> Relaying
    decreases turns.len(),
{
    if turns.len() == 0 {
        Relaying { client, ended: false }
    } else {
        let before = relay_after(refuse_ipv4, idle_timeout, client, turns.drop_last());
        let events = events_of(refuse_ipv4, before.client, turns.last());
        if before.ended {
            before
        } else {
            Relaying {
                client: match turns.last() {
                    RelayTurn::Datagram { src, .. } => client_after(before.client, src),
                    _ => before.client,
                },
                ended: exists|i: int|
                    0 <= i < events.len() && relay_ends(idle_timeout, #[trigger] events[i]),
            }
        }
    }
}

/// Whether a turn is one that may end a relay: receiving fails, or no datagram has come for as long
/// as the limit says.
pub open spec fn is_end(idle_timeout: Option<u64>, turn: RelayTurn) -> bool {
    match turn {
        RelayTurn::Datagram { .. } => false,
        RelayTurn::ReceiveFailed => true,
        RelayTurn::Quiet(nanos) => idle_timeout matches Some(secs) && nanos >= secs * NANOS,
    }
}

/// A relay ends exactly when receiving fails or, where there is a limit, when no datagram has come
/// from anyone for that long. Without a limit it never ends for being idle. No datagram ends it,
/// whatever it holds and wherever it comes from, whether or not its name can be resolved and
/// whether or not anything can be sent.
pub proof fn law_when_a_relay_ends(
    refuse_ipv4: bool,
    idle_timeout: Option<u64>,
    client: Endpoint,
    turns: Seq<RelayTurn>,
)
    ensures
        relay_after(refuse_ipv4, idle_timeout, client, turns).ended <==> exists|i: int|
            0 <= i < turns.len() && is_end(idle_timeout, #[trigger] turns[i]),
    decreases turns.len(),
{
    if turns.len() > 0 {
        let front = turns.drop_last();
        let before = relay_after(refuse_ipv4, idle_timeout, client, front);
        law_when_a_relay_ends(refuse_ipv4, idle_timeout, client, front);
        let n = turns.len() - 1;
        let events = events_of(refuse_ipv4, before.client, turns[n]);
        if before.ended {
            let i = choose|i: int| 0 <= i < front.len() && is_end(idle_timeout, #[trigger] front[i]);
            assert(is_end(idle_timeout, turns[i]));
        } else {
            assert forall|i: int| 0 <= i < n implies !is_end(idle_timeout, #[trigger] turns[i]) by {
                assert(front[i] == turns[i]);
            }
            assert(relay_ends(idle_timeout, events[0]) == is_end(idle_timeout, turns[n]));
        }
    }
}

} // verus!
