//! One client connection: what has to be done next, and what follows from how it went.
//!
//! A [`Session`] says by [`Session::action`] what it waits for. Whoever does it tells
//! [`Session::step`] what came of it. An event that is no answer to what the session waits for
//! changes nothing.

use vstd::prelude::*;
use crate::addr::{append_bytes, endpoint, is_v4, is_v6, unspecified_v4, unspecified_v6};
use crate::addr::{Endpoint, IpAddr, Ipv4Addr, Ipv6Addr, SocketAddr};
use crate::block::{egress_from, prefixes, random_egress_ipv6, Ipv6Block, Prefix};
use crate::config::{Config, Settings};
use crate::failure::Failure;
use crate::handshake::{dialogue, handshake, DialogueStatus, HandshakeStatus};
use crate::pump::PumpAction;
use crate::request::{fail_bytes, fail_reply, read_request, reply_bytes, request_progress, write_reply};
use crate::request::{RequestProgress, RequestStatus, Target, TargetAddr};

verus! {

/// What all connections share: the settings, and the blocks read from them.
#[derive(Debug, PartialEq, Eq)]
pub struct Context {
    pub config: Config,
    pub blocks: Vec<Ipv6Block>,
}

/// What a [`Context`] stands for.
#[verifier::ext_equal]
pub struct Setup {
    pub settings: Settings,
    pub blocks: Seq<Prefix>,
}

impl View for Context {
    type V = Setup;

    open spec fn view(&self) -> Setup {
        Setup { settings: self.config@, blocks: prefixes(self.blocks@) }
    }
}

/// The command to connect to a target.
pub const COMMAND_CONNECT: u8 = 1;

/// The command to wait for a connection.
pub const COMMAND_BIND: u8 = 2;

/// The command to relay datagrams.
pub const COMMAND_UDP_ASSOCIATE: u8 = 3;

/// The reply that a command was carried out.
pub const REPLY_SUCCEEDED: u8 = 0;

/// The reply that the rules do not allow the target.
pub const REPLY_NOT_ALLOWED: u8 = 2;

/// The reply that the target cannot be reached.
pub const REPLY_HOST_UNREACHABLE: u8 = 4;

/// The reply that no connection came about.
pub const REPLY_CONNECTION_REFUSED: u8 = 5;

/// The reply that the command is not known.
pub const REPLY_COMMAND_UNSUPPORTED: u8 = 7;

/// How long connecting to a target may take, in seconds.
pub const CONNECT_TIMEOUT_SECS: u64 = 30;

/// How long to wait for the connection that a BIND is for, in seconds.
pub const BIND_TIMEOUT_SECS: u64 = 120;

/// How many connections may queue at the port of a BIND.
pub const BIND_BACKLOG: u32 = 1024;

/// The commands that depend on where the client connects from.
#[derive(Clone, Copy, Debug, PartialEq, Eq, Structural)]
pub enum PeerCommand {
    Bind,
    UdpAssociate,
}

/// What follows a reply.
#[derive(Clone, Copy, Debug, PartialEq, Eq)]
pub enum AfterReply {
    /// Bytes are passed on in both directions.
    Relay,
    /// A connection to `local` is waited for.
    Accept { local: SocketAddr },
    /// Datagrams are passed on.
    RelayUdp { client: SocketAddr },
    /// The connection is closed.
    Close(Failure),
}

/// What an [`AfterReply`] stands for.
#[verifier::ext_equal]
pub enum Sequel {
    Relay,
    Accept { local: Endpoint },
    RelayUdp { client: Endpoint },
    Close(Failure),
}

impl View for AfterReply {
    type V = Sequel;

    open spec fn view(&self) -> Sequel {
        match *self {
            AfterReply::Relay => Sequel::Relay,
            AfterReply::Accept { local } => Sequel::Accept { local: local@ },
            AfterReply::RelayUdp { client } => Sequel::RelayUdp { client: client@ },
            AfterReply::Close(f) => Sequel::Close(f),
        }
    }
}

/// The state of a connection.
#[derive(Debug, PartialEq, Eq)]
pub enum Session {
    /// The handshake: what the client has sent, how many bytes have been sent to it, and how many
    /// more it has to send.
    Handshake { received: Vec<u8>, sent: usize, need: usize },
    /// An answer in the handshake is sent. With it so many bytes have been sent in all, and the
    /// handshake stands as `status` says.
    Answer { bytes: Vec<u8>, received: Vec<u8>, sent: usize, status: HandshakeStatus },
    /// The request: what the client has sent of it, and how many more bytes it has to send.
    Request { received: Vec<u8>, need: usize },
    /// The addresses of a name are looked up.
    Resolve { domain: String, port: u16 },
    /// A connection to the target is made, from a source where one is set.
    Connect { target: SocketAddr, source: Option<SocketAddr> },
    /// The connection is there; its local address is asked for.
    Connected,
    /// The address of the client is asked for.
    Peer { command: PeerCommand },
    /// A port is opened for the connection that a BIND is for.
    Listen { at: SocketAddr },
    /// That connection is waited for.
    Accept { local: SocketAddr },
    /// A port for datagrams is opened.
    OpenUdp { client: SocketAddr, at: SocketAddr },
    /// A reply is sent.
    Reply { bytes: Vec<u8>, next: AfterReply },
    /// Bytes are passed on in both directions.
    Relay,
    /// Datagrams are passed on as long as the client keeps the connection.
    RelayUdp { client: SocketAddr },
    /// The connection is over; where it was given up, for which reason.
    Closed { failure: Option<Failure> },
}

/// What a [`Session`] stands for.
#[allow(inconsistent_fields)]
#[verifier::ext_equal]
pub enum Stage {
    Handshake { received: Seq<u8>, sent: nat, need: nat },
    Answer { bytes: Seq<u8>, received: Seq<u8>, sent: nat, status: DialogueStatus },
    Request { received: Seq<u8>, need: nat },
    Resolve { domain: Seq<char>, port: u16 },
    Connect { target: Endpoint, source: Option<Endpoint> },
    Connected,
    Peer { command: PeerCommand },
    Listen { at: Endpoint },
    Accept { local: Endpoint },
    OpenUdp { client: Endpoint, at: Endpoint },
    Reply { bytes: Seq<u8>, next: Sequel },
    Relay,
    RelayUdp { client: Endpoint },
    Closed { failure: Option<Failure> },
}

/// What an optional socket address stands for.
pub open spec fn endpoint_of(a: Option<SocketAddr>) -> Option<Endpoint> {
    match a {
        Some(a) => Some(a@),
        None => None,
    }
}

/// What an optional address stands for.
pub open spec fn octets_of(a: Option<Ipv6Addr>) -> Option<Seq<u8>> {
    match a {
        Some(a) => Some(a@),
        None => None,
    }
}

/// What some socket addresses stand for.
pub open spec fn endpoints(v: Seq<SocketAddr>) -> Seq<Endpoint> {
    v.map_values(|a: SocketAddr| a@)
}

impl View for Session {
    type V = Stage;

    open spec fn view(&self) -> Stage {
        match *self {
            Session::Handshake { received, sent, need } => Stage::Handshake {
                received: received@,
                sent: sent as nat,
                need: need as nat,
            },
            Session::Answer { bytes, received, sent, status } => Stage::Answer {
                bytes: bytes@,
                received: received@,
                sent: sent as nat,
                status: status@,
            },
            Session::Request { received, need } => Stage::Request {
                received: received@,
                need: need as nat,
            },
            Session::Resolve { domain, port } => Stage::Resolve { domain: domain@, port },
            Session::Connect { target, source } => Stage::Connect {
                target: target@,
                source: endpoint_of(source),
            },
            Session::Connected => Stage::Connected,
            Session::Peer { command } => Stage::Peer { command },
            Session::Listen { at } => Stage::Listen { at: at@ },
            Session::Accept { local } => Stage::Accept { local: local@ },
            Session::OpenUdp { client, at } => Stage::OpenUdp { client: client@, at: at@ },
            Session::Reply { bytes, next } => Stage::Reply { bytes: bytes@, next: next@ },
            Session::Relay => Stage::Relay,
            Session::RelayUdp { client } => Stage::RelayUdp { client: client@ },
            Session::Closed { failure } => Stage::Closed { failure },
        }
    }
}

/// What came of what a session waited for.
#[derive(Debug, PartialEq, Eq)]
pub enum Event {
    /// These bytes have been read.
    Bytes(Vec<u8>),
    /// It is done.
    Done,
    /// The address that was asked for, or that of the port or the connection that was made.
    Address(SocketAddr),
    /// The addresses that a name has.
    Addresses(Vec<SocketAddr>),
    /// It took too long.
    TimedOut,
    /// It failed.
    Failed,
}

/// What an [`Event`] stands for.
#[verifier::ext_equal]
pub enum Happening {
    Bytes(Seq<u8>),
    Done,
    Address(Endpoint),
    Addresses(Seq<Endpoint>),
    TimedOut,
    Failed,
}

impl View for Event {
    type V = Happening;

    open spec fn view(&self) -> Happening {
        match *self {
            Event::Bytes(b) => Happening::Bytes(b@),
            Event::Done => Happening::Done,
            Event::Address(a) => Happening::Address(a@),
            Event::Addresses(v) => Happening::Addresses(endpoints(v@)),
            Event::TimedOut => Happening::TimedOut,
            Event::Failed => Happening::Failed,
        }
    }
}

/// What a session waits for.
#[derive(Debug, PartialEq, Eq)]
pub enum Action {
    /// Read just so many bytes from the client.
    Read(usize),
    /// Write these bytes to the client.
    Write(Vec<u8>),
    /// Tell the address that the client connects from.
    PeerAddress,
    /// Tell the local address of the connection to the target.
    LocalAddress,
    /// Look up the addresses of a name.
    Resolve { domain: String, port: u16 },
    /// Connect to the target, after binding to the source where there is one.
    Connect { target: SocketAddr, source: Option<SocketAddr>, within_secs: u64 },
    /// Open a port for connections, and tell its address.
    Listen { at: SocketAddr, backlog: u32 },
    /// Accept one connection at that port, and tell where it comes from.
    Accept { within_secs: u64 },
    /// Open a port for datagrams, and tell its address.
    OpenUdp { at: SocketAddr },
    /// Pass bytes on in both directions.
    Relay,
    /// Pass datagrams on, and read what comes from the client over the connection.
    RelayUdp { client: SocketAddr },
    /// Close the connection.
    Close { failure: Option<Failure> },
}

/// What an [`Action`] stands for.
#[allow(inconsistent_fields)]
#[verifier::ext_equal]
pub enum Demand {
    Read(nat),
    Write(Seq<u8>),
    PeerAddress,
    LocalAddress,
    Resolve { domain: Seq<char>, port: u16 },
    Connect { target: Endpoint, source: Option<Endpoint>, within_secs: u64 },
    Listen { at: Endpoint, backlog: u32 },
    Accept { within_secs: u64 },
    OpenUdp { at: Endpoint },
    Relay,
    RelayUdp { client: Endpoint },
    Close { failure: Option<Failure> },
}

impl View for Action {
    type V = Demand;

    open spec fn view(&self) -> Demand {
        match *self {
            Action::Read(n) => Demand::Read(n as nat),
            Action::Write(b) => Demand::Write(b@),
            Action::PeerAddress => Demand::PeerAddress,
            Action::LocalAddress => Demand::LocalAddress,
            Action::Resolve { domain, port } => Demand::Resolve { domain: domain@, port },
            Action::Connect { target, source, within_secs } => Demand::Connect {
                target: target@,
                source: endpoint_of(source),
                within_secs,
            },
            Action::Listen { at, backlog } => Demand::Listen { at: at@, backlog },
            Action::Accept { within_secs } => Demand::Accept { within_secs },
            Action::OpenUdp { at } => Demand::OpenUdp { at: at@ },
            Action::Relay => Demand::Relay,
            Action::RelayUdp { client } => Demand::RelayUdp { client: client@ },
            Action::Close { failure } => Demand::Close { failure },
        }
    }
}

/// The part of a connection whose time is limited as a whole.
#[derive(Clone, Copy, Debug, PartialEq, Eq, Structural)]
pub enum Phase {
    /// The handshake.
    Handshake,
    /// Reading the request.
    Request,
    /// What comes behind them, which is not limited as a whole.
    Service,
}

/// The state in which a connection goes on whose handshake has come so far, with so many bytes
/// sent to the client before. What is left of the answer goes out first.
pub open spec fn handshake_stage(s: Settings, received: Seq<u8>, sent: nat) -> Stage {
    let d = dialogue(s, received);
    if sent < d.sent.len() {
        Stage::Answer {
            bytes: d.sent.skip(sent as int),
            received,
            sent: d.sent.len(),
            status: d.status,
        }
    } else {
        answered_stage(received, sent, d.status)
    }
}

/// The state in which a connection goes on once the answer in the handshake has gone out. A
/// handshake that has succeeded ends with the last byte that was read, so the request starts with
/// the next.
pub open spec fn answered_stage(received: Seq<u8>, sent: nat, status: DialogueStatus) -> Stage {
    match status {
        DialogueStatus::Need(need) => Stage::Handshake { received, sent, need },
        DialogueStatus::Accepted(_) => Stage::Request { received: Seq::empty(), need: 1 },
        DialogueStatus::Refused(f) => Stage::Closed { failure: Some(f) },
    }
}

/// The state in which a connection goes on whose request has come so far.
pub open spec fn request_stage(s: Settings, received: Seq<u8>, egress: Option<Seq<u8>>) -> Stage {
    match request_progress(received) {
        RequestProgress::Need(need) => Stage::Request { received, need },
        RequestProgress::Ready { command, target, port, .. } => dispatched(
            s,
            command,
            target,
            port,
            egress,
        ),
        RequestProgress::Refused(f) => Stage::Closed { failure: Some(f) },
    }
}

/// The state that a reply without an address leads to, which tells the client that it is refused.
pub open spec fn refused(rep: u8, f: Failure) -> Stage {
    Stage::Reply { bytes: fail_bytes(rep), next: Sequel::Close(f) }
}

/// The state in which a command is begun.
pub open spec fn dispatched(
    s: Settings,
    command: u8,
    target: Target,
    port: u16,
    egress: Option<Seq<u8>>,
) -> Stage {
    if command == COMMAND_CONNECT {
        match target {
            Target::Ip(ip) => dialled(s, endpoint(ip, port), egress),
            Target::Domain(domain) => Stage::Resolve { domain, port },
        }
    } else if command == COMMAND_BIND {
        Stage::Peer { command: PeerCommand::Bind }
    } else if command == COMMAND_UDP_ASSOCIATE {
        Stage::Peer { command: PeerCommand::UdpAssociate }
    } else {
        refused(REPLY_COMMAND_UNSUPPORTED, Failure::UnsupportedCommand)
    }
}

/// The state in which a target is connected to: IPv4 targets are refused where only IPv6 is
/// allowed, and IPv6 targets get a random source where that is asked for.
pub open spec fn dialled(s: Settings, target: Endpoint, egress: Option<Seq<u8>>) -> Stage {
    if s.refuses_ipv4() && is_v4(target.ip) {
        refused(REPLY_NOT_ALLOWED, Failure::Ipv4Refused)
    } else {
        Stage::Connect {
            target,
            source: if s.random_egress_ipv6 && is_v6(target.ip) && egress is Some {
                Some(endpoint(egress->0, 0))
            } else {
                None
            },
        }
    }
}

/// Which of the addresses of a name is used: the first IPv6 address where those are preferred and
/// there is one, and else the first.
pub open spec fn preferred(list: Seq<Endpoint>, prefer_v6: bool) -> Endpoint {
    let k = first_v6(list, 0);
    if prefer_v6 && k < list.len() {
        list[k]
    } else {
        list[0]
    }
}

/// Where the first IPv6 address stands, from a position on; the length if there is none.
pub open spec fn first_v6(list: Seq<Endpoint>, from: int) -> int
    decreases list.len() - from,
{
    if from < 0 || from >= list.len() {
        list.len() as int
    } else if is_v6(list[from].ip) {
        from
    } else {
        first_v6(list, from + 1)
    }
}

/// Where a port is opened for a client: any address of the family that the client connects over,
/// or a random one for IPv6 where that is asked for.
pub open spec fn opened_at(s: Settings, peer: Endpoint, egress: Option<Seq<u8>>) -> Endpoint {
    if !is_v6(peer.ip) {
        endpoint(unspecified_v4(), 0)
    } else if s.random_egress_ipv6 && egress is Some {
        endpoint(egress->0, 0)
    } else {
        endpoint(unspecified_v6(), 0)
    }
}

/// What follows a reply that has been sent.
pub open spec fn after_reply(next: Sequel) -> Stage {
    match next {
        Sequel::Relay => Stage::Relay,
        Sequel::Accept { local } => Stage::Accept { local },
        Sequel::RelayUdp { client } => Stage::RelayUdp { client },
        Sequel::Close(f) => Stage::Closed { failure: Some(f) },
    }
}

/// The state that follows a state and an event. `egress` is the random address that is used where
/// one is needed.
pub open spec fn next_stage(s: Settings, st: Stage, e: Happening, egress: Option<Seq<u8>>) -> Stage {
    match st {
        Stage::Handshake { received, sent, need } => match e {
            Happening::Bytes(b) => if b.len() == need {
                handshake_stage(s, received + b, sent)
            } else {
                st
            },
            Happening::TimedOut => Stage::Closed { failure: Some(Failure::HandshakeTimedOut) },
            Happening::Failed => Stage::Closed { failure: Some(Failure::Io) },
            _ => st,
        },
        Stage::Answer { bytes, received, sent, status } => match e {
            Happening::Done => answered_stage(received, sent, status),
            Happening::TimedOut => Stage::Closed { failure: Some(Failure::HandshakeTimedOut) },
            Happening::Failed => Stage::Closed { failure: Some(Failure::Io) },
            _ => st,
        },
        Stage::Request { received, need } => match e {
            Happening::Bytes(b) => if b.len() == need {
                request_stage(s, received + b, egress)
            } else {
                st
            },
            Happening::TimedOut => Stage::Closed { failure: Some(Failure::RequestTimedOut) },
            Happening::Failed => Stage::Closed { failure: Some(Failure::Io) },
            _ => st,
        },
        Stage::Resolve { domain, port } => match e {
            Happening::Addresses(list) => if list.len() == 0 {
                refused(REPLY_HOST_UNREACHABLE, Failure::NoAddressFound)
            } else {
                dialled(s, preferred(list, s.random_egress_ipv6), egress)
            },
            Happening::Failed => refused(REPLY_HOST_UNREACHABLE, Failure::Io),
            _ => st,
        },
        Stage::Connect { target, source } => match e {
            Happening::Done => Stage::Connected,
            Happening::TimedOut => refused(REPLY_CONNECTION_REFUSED, Failure::ConnectTimedOut),
            Happening::Failed => refused(REPLY_CONNECTION_REFUSED, Failure::Io),
            _ => st,
        },
        Stage::Connected => match e {
            Happening::Address(local) => Stage::Reply {
                bytes: reply_bytes(REPLY_SUCCEEDED, local),
                next: Sequel::Relay,
            },
            Happening::Failed => Stage::Closed { failure: Some(Failure::Io) },
            _ => st,
        },
        Stage::Peer { command } => match e {
            Happening::Address(peer) => match command {
                PeerCommand::Bind => Stage::Listen { at: opened_at(s, peer, egress) },
                PeerCommand::UdpAssociate => Stage::OpenUdp {
                    client: peer,
                    at: opened_at(s, peer, egress),
                },
            },
            Happening::Failed => Stage::Closed { failure: Some(Failure::Io) },
            _ => st,
        },
        Stage::Listen { at } => match e {
            Happening::Address(local) => Stage::Reply {
                bytes: reply_bytes(REPLY_SUCCEEDED, local),
                next: Sequel::Accept { local },
            },
            Happening::Failed => Stage::Closed { failure: Some(Failure::Io) },
            _ => st,
        },
        Stage::Accept { local } => match e {
            Happening::Address(from) => Stage::Reply {
                bytes: reply_bytes(REPLY_SUCCEEDED, from),
                next: Sequel::Relay,
            },
            Happening::TimedOut => Stage::Reply {
                bytes: reply_bytes(REPLY_CONNECTION_REFUSED, local),
                next: Sequel::Close(Failure::BindTimedOut),
            },
            Happening::Failed => Stage::Closed { failure: Some(Failure::Io) },
            _ => st,
        },
        Stage::OpenUdp { client, at } => match e {
            Happening::Address(local) => Stage::Reply {
                bytes: reply_bytes(REPLY_SUCCEEDED, local),
                next: Sequel::RelayUdp { client },
            },
            Happening::Failed => Stage::Closed { failure: Some(Failure::Io) },
            _ => st,
        },
        Stage::Reply { bytes, next } => match e {
            Happening::Done => after_reply(next),
            Happening::Failed => Stage::Closed { failure: Some(Failure::Io) },
            _ => st,
        },
        Stage::Relay => match e {
            Happening::Done => Stage::Closed { failure: None },
            Happening::TimedOut => Stage::Closed { failure: Some(Failure::IdleTimedOut) },
            Happening::Failed => Stage::Closed { failure: Some(Failure::Io) },
            _ => st,
        },
        Stage::RelayUdp { client } => match e {
            Happening::Bytes(b) => if b.len() == 0 {
                Stage::Closed { failure: None }
            } else {
                st
            },
            Happening::Done => Stage::Closed { failure: None },
            Happening::Failed => Stage::Closed { failure: None },
            _ => st,
        },
        Stage::Closed { failure } => st,
    }
}

/// Whether a random address is used in what follows a state and an event.
pub open spec fn needs_egress(s: Settings, st: Stage, e: Happening) -> bool {
    s.random_egress_ipv6 && match (st, e) {
        (Stage::Request { received, need }, Happening::Bytes(b)) => {
            &&& b.len() == need
            &&& request_progress(received + b) matches RequestProgress::Ready {
                command,
                target: Target::Ip(ip),
                ..
            }
            &&& command == COMMAND_CONNECT
            &&& is_v6(ip)
        },
        (Stage::Resolve { .. }, Happening::Addresses(list)) => list.len() > 0 && is_v6(
            preferred(list, true).ip,
        ),
        (Stage::Peer { .. }, Happening::Address(peer)) => is_v6(peer.ip),
        _ => false,
    }
}

/// Whether a random address may be the one that is used: one of the blocks where one is needed, and
/// none where none is.
pub open spec fn egress_due(
    setup: Setup,
    st: Stage,
    e: Happening,
    egress: Option<Seq<u8>>,
) -> bool {
    if needs_egress(setup.settings, st, e) {
        egress_from(setup.blocks, egress)
    } else {
        egress is None
    }
}

/// What a state waits for.
pub open spec fn demand(st: Stage) -> Demand {
    match st {
        Stage::Handshake { need, .. } => Demand::Read(need),
        Stage::Answer { bytes, .. } => Demand::Write(bytes),
        Stage::Request { need, .. } => Demand::Read(need),
        Stage::Resolve { domain, port } => Demand::Resolve { domain, port },
        Stage::Connect { target, source } => Demand::Connect {
            target,
            source,
            within_secs: CONNECT_TIMEOUT_SECS,
        },
        Stage::Connected => Demand::LocalAddress,
        Stage::Peer { .. } => Demand::PeerAddress,
        Stage::Listen { at } => Demand::Listen { at, backlog: BIND_BACKLOG },
        Stage::Accept { .. } => Demand::Accept { within_secs: BIND_TIMEOUT_SECS },
        Stage::OpenUdp { at, .. } => Demand::OpenUdp { at },
        Stage::Reply { bytes, .. } => Demand::Write(bytes),
        Stage::Relay => Demand::Relay,
        Stage::RelayUdp { client } => Demand::RelayUdp { client },
        Stage::Closed { failure } => Demand::Close { failure },
    }
}

/// The part of a connection that a state belongs to.
pub open spec fn phase_of(st: Stage) -> Phase {
    match st {
        Stage::Handshake { .. } | Stage::Answer { .. } => Phase::Handshake,
        Stage::Request { .. } => Phase::Request,
        _ => Phase::Service,
    }
}

/// How long the part of a connection that a state belongs to may take as a whole, in seconds, where
/// that is limited: the handshake and then the request, each on its own, and nothing behind them.
pub open spec fn limit_of(s: Settings, st: Stage) -> Option<u64> {
    match phase_of(st) {
        Phase::Service => None,
        _ => Some(s.handshake_timeout_secs),
    }
}

/// What the end of the relay of bytes is to the session, once an action in either direction ends it.
pub open spec fn relay_happening(action: PumpAction) -> Option<Happening> {
    match action {
        PumpAction::Write(_) | PumpAction::Wait => None,
        PumpAction::Finish => Some(Happening::Done),
        PumpAction::Fail(f) => if f == Failure::IdleTimedOut {
            Some(Happening::TimedOut)
        } else {
            Some(Happening::Failed)
        },
    }
}

/// The state of a connection that has just come in.
pub open spec fn first_stage() -> Stage {
    Stage::Handshake { received: Seq::empty(), sent: 0, need: 1 }
}

fn joined(received: Vec<u8>, more: &Vec<u8>) -> (r: Vec<u8>)
    ensures
        r@ == received@ + more@,
{
    let mut all = received;
    append_bytes(&mut all, more.as_slice());
    all
}

fn closed(f: Failure) -> (r: Session)
    ensures
        r@ == (Stage::Closed { failure: Some(f) }),
{
    Session::Closed { failure: Some(f) }
}

fn refuse(rep: u8, f: Failure) -> (r: Session)
    ensures
        r@ == refused(rep, f),
{
    Session::Reply { bytes: fail_reply(rep), next: AfterReply::Close(f) }
}

fn answered(received: Vec<u8>, sent: usize, status: HandshakeStatus) -> (r: Session)
    ensures
        r@ == answered_stage(received@, sent as nat, status@),
{
    match status {
        HandshakeStatus::Need(need) => Session::Handshake { received, sent, need },
        HandshakeStatus::Accepted(_) => {
            let received: Vec<u8> = Vec::new();
            assert(received@ =~= Seq::<u8>::empty());
            Session::Request { received, need: 1 }
        },
        HandshakeStatus::Refused(f) => closed(f),
    }
}

fn handshaken(config: &Config, received: Vec<u8>, sent: usize) -> (r: Session)
    ensures
        r@ == handshake_stage(config@, received@, sent as nat),
{
    let h = handshake(config, received.as_slice());
    if sent < h.sent.len() {
        let total: usize = h.sent.len();
        let mut bytes: Vec<u8> = Vec::new();
        append_bytes(&mut bytes, vstd::slice::slice_subrange(h.sent.as_slice(), sent, total));
        assert(bytes@ =~= h.sent@.skip(sent as int));
        Session::Answer { bytes, received, sent: total, status: h.status }
    } else {
        answered(received, sent, h.status)
    }
}

/// Begins to connect to a target.
pub fn connect_to(config: &Config, target: SocketAddr, egress: Option<Ipv6Addr>) -> (r: Session)
    ensures
        r@ == dialled(config@, target@, octets_of(egress)),
{
    if config.refuses_ipv4() && !target.is_ipv6() {
        return refuse(REPLY_NOT_ALLOWED, Failure::Ipv4Refused);
    }
    let mut source: Option<SocketAddr> = None;
    if config.random_egress_ipv6 && target.is_ipv6() {
        if let Some(ip) = egress {
            source = Some(SocketAddr::new(IpAddr::V6(ip), 0));
        }
    }
    Session::Connect { target, source }
}

/// Begins a CONNECT.
pub fn cmd_connect(
    config: &Config,
    target: TargetAddr,
    port: u16,
    egress: Option<Ipv6Addr>,
) -> (r: Session)
    ensures
        r@ == dispatched(config@, COMMAND_CONNECT, target@, port, octets_of(egress)),
{
    match target {
        TargetAddr::Ip(ip) => connect_to(config, SocketAddr::new(ip, port), egress),
        TargetAddr::Domain(domain) => Session::Resolve { domain, port },
    }
}

/// Begins a command.
pub fn dispatch(
    config: &Config,
    command: u8,
    target: TargetAddr,
    port: u16,
    egress: Option<Ipv6Addr>,
) -> (r: Session)
    ensures
        r@ == dispatched(config@, command, target@, port, octets_of(egress)),
{
    if command == COMMAND_CONNECT {
        cmd_connect(config, target, port, egress)
    } else if command == COMMAND_BIND {
        Session::Peer { command: PeerCommand::Bind }
    } else if command == COMMAND_UDP_ASSOCIATE {
        Session::Peer { command: PeerCommand::UdpAssociate }
    } else {
        refuse(REPLY_COMMAND_UNSUPPORTED, Failure::UnsupportedCommand)
    }
}

/// Which of the addresses of a name is used; none if there are none.
pub fn resolve_target(list: &[SocketAddr], prefer_v6: bool) -> (r: Option<SocketAddr>)
    ensures
        r is None <==> list@.len() == 0,
        r matches Some(a) ==> a@ == preferred(endpoints(list@), prefer_v6),
{
    if list.len() == 0 {
        return None;
    }
    let ghost all = endpoints(list@);
    if prefer_v6 {
        let mut i: usize = 0;
        while i < list.len()
            invariant
                i <= list@.len(),
                list@.len() > 0,
                all == endpoints(list@),
                prefer_v6,
                first_v6(all, 0) == first_v6(all, i as int),
            decreases list@.len() - i,
        {
            assert(all[i as int] == list@[i as int]@);
            if list[i].is_ipv6() {
                return Some(list[i]);
            }
            i = i + 1;
        }
    }
    assert(all[0] == list@[0]@);
    Some(list[0])
}

fn open_at(config: &Config, peer: &SocketAddr, egress: Option<Ipv6Addr>) -> (r: SocketAddr)
    ensures
        r@ == opened_at(config@, peer@, octets_of(egress)),
{
    if !peer.is_ipv6() {
        return SocketAddr::new(IpAddr::V4(Ipv4Addr::unspecified()), 0);
    }
    if config.random_egress_ipv6 {
        if let Some(ip) = egress {
            return SocketAddr::new(IpAddr::V6(ip), 0);
        }
    }
    SocketAddr::new(IpAddr::V6(Ipv6Addr::unspecified()), 0)
}

/// Begins a BIND of a client that connects from `peer`.
pub fn cmd_bind(config: &Config, peer: SocketAddr, egress: Option<Ipv6Addr>) -> (r: Session)
    ensures
        r@ == (Stage::Listen { at: opened_at(config@, peer@, octets_of(egress)) }),
{
    Session::Listen { at: open_at(config, &peer, egress) }
}

/// Begins a UDP ASSOCIATE of a client that connects from `peer`.
pub fn cmd_udp_associate(
    config: &Config,
    peer: SocketAddr,
    egress: Option<Ipv6Addr>,
) -> (r: Session)
    ensures
        r@ == (Stage::OpenUdp {
            client: peer@,
            at: opened_at(config@, peer@, octets_of(egress)),
        }),
{
    Session::OpenUdp { client: peer, at: open_at(config, &peer, egress) }
}

/// What a session is told after an action in either direction of the relay of bytes; nothing while
/// the relay goes on.
pub fn relay_event(action: PumpAction) -> (r: Option<Event>)
    ensures
        match r {
            Some(e) => relay_happening(action) == Some(e@),
            None => relay_happening(action) is None,
        },
{
    match action {
        PumpAction::Write(_) | PumpAction::Wait => None,
        PumpAction::Finish => Some(Event::Done),
        PumpAction::Fail(f) => {
            if f == Failure::IdleTimedOut {
                Some(Event::TimedOut)
            } else {
                Some(Event::Failed)
            }
        },
    }
}

impl Session {
    /// A connection that has just come in.
    pub fn new() -> (r: Session)
        ensures
            r@ == first_stage(),
    {
        let received: Vec<u8> = Vec::new();
        assert(received@ =~= Seq::<u8>::empty());
        Session::Handshake { received, sent: 0, need: 1 }
    }

    /// The part of the connection that the session is in.
    pub fn phase(&self) -> (r: Phase)
        ensures
            r == phase_of(self@),
    {
        match self {
            Session::Handshake { .. } | Session::Answer { .. } => Phase::Handshake,
            Session::Request { .. } => Phase::Request,
            _ => Phase::Service,
        }
    }

    /// How long the part of the connection that the session is in may take as a whole, in seconds,
    /// where that is limited.
    pub fn limit_secs(&self, config: &Config) -> (r: Option<u64>)
        ensures
            r == limit_of(config@, self@),
    {
        match self.phase() {
            Phase::Service => None,
            _ => Some(config.handshake_timeout_secs),
        }
    }

    /// What the session waits for.
    pub fn action(&self) -> (r: Action)
        ensures
            r@ == demand(self@),
    {
        match self {
            Session::Handshake { need, .. } => Action::Read(*need),
            Session::Answer { bytes, .. } => {
                let mut copy: Vec<u8> = Vec::new();
                append_bytes(&mut copy, bytes.as_slice());
                assert(copy@ =~= bytes@);
                Action::Write(copy)
            },
            Session::Request { need, .. } => Action::Read(*need),
            Session::Resolve { domain, port } => Action::Resolve {
                domain: domain.clone(),
                port: *port,
            },
            Session::Connect { target, source } => Action::Connect {
                target: *target,
                source: *source,
                within_secs: CONNECT_TIMEOUT_SECS,
            },
            Session::Connected => Action::LocalAddress,
            Session::Peer { .. } => Action::PeerAddress,
            Session::Listen { at } => Action::Listen { at: *at, backlog: BIND_BACKLOG },
            Session::Accept { .. } => Action::Accept { within_secs: BIND_TIMEOUT_SECS },
            Session::OpenUdp { at, .. } => Action::OpenUdp { at: *at },
            Session::Reply { bytes, .. } => {
                let mut copy: Vec<u8> = Vec::new();
                append_bytes(&mut copy, bytes.as_slice());
                assert(copy@ =~= bytes@);
                Action::Write(copy)
            },
            Session::Relay => Action::Relay,
            Session::RelayUdp { client } => Action::RelayUdp { client: *client },
            Session::Closed { failure } => Action::Close { failure: *failure },
        }
    }

    /// The session after an event. `egress` is the random address that is used where one is needed.
    pub fn advance(self, config: &Config, event: Event, egress: Option<Ipv6Addr>) -> (r: Session)
        ensures
            r@ == next_stage(config@, self@, event@, octets_of(egress)),
    {
        match self {
            Session::Handshake { received, sent, need } => match event {
                Event::Bytes(b) => {
                    if b.len() == need {
                        handshaken(config, joined(received, &b), sent)
                    } else {
                        Session::Handshake { received, sent, need }
                    }
                },
                Event::TimedOut => closed(Failure::HandshakeTimedOut),
                Event::Failed => closed(Failure::Io),
                _ => Session::Handshake { received, sent, need },
            },
            Session::Answer { bytes, received, sent, status } => match event {
                Event::Done => answered(received, sent, status),
                Event::TimedOut => closed(Failure::HandshakeTimedOut),
                Event::Failed => closed(Failure::Io),
                _ => Session::Answer { bytes, received, sent, status },
            },
            Session::Request { received, need } => match event {
                Event::Bytes(b) => {
                    if b.len() == need {
                        let all = joined(received, &b);
                        match read_request(all.as_slice()) {
                            RequestStatus::Need(need) => Session::Request { received: all, need },
                            RequestStatus::Ready { request, .. } => dispatch(
                                config,
                                request.command,
                                request.target,
                                request.port,
                                egress,
                            ),
                            RequestStatus::Refused(f) => closed(f),
                        }
                    } else {
                        Session::Request { received, need }
                    }
                },
                Event::TimedOut => closed(Failure::RequestTimedOut),
                Event::Failed => closed(Failure::Io),
                _ => Session::Request { received, need },
            },
            Session::Resolve { domain, port } => match event {
                Event::Addresses(list) => {
                    match resolve_target(list.as_slice(), config.random_egress_ipv6) {
                        None => refuse(REPLY_HOST_UNREACHABLE, Failure::NoAddressFound),
                        Some(target) => connect_to(config, target, egress),
                    }
                },
                Event::Failed => refuse(REPLY_HOST_UNREACHABLE, Failure::Io),
                _ => Session::Resolve { domain, port },
            },
            Session::Connect { target, source } => match event {
                Event::Done => Session::Connected,
                Event::TimedOut => refuse(REPLY_CONNECTION_REFUSED, Failure::ConnectTimedOut),
                Event::Failed => refuse(REPLY_CONNECTION_REFUSED, Failure::Io),
                _ => Session::Connect { target, source },
            },
            Session::Connected => match event {
                Event::Address(local) => Session::Reply {
                    bytes: write_reply(REPLY_SUCCEEDED, &local),
                    next: AfterReply::Relay,
                },
                Event::Failed => closed(Failure::Io),
                _ => Session::Connected,
            },
            Session::Peer { command } => match event {
                Event::Address(peer) => match command {
                    PeerCommand::Bind => cmd_bind(config, peer, egress),
                    PeerCommand::UdpAssociate => cmd_udp_associate(config, peer, egress),
                },
                Event::Failed => closed(Failure::Io),
                _ => Session::Peer { command },
            },
            Session::Listen { at } => match event {
                Event::Address(local) => Session::Reply {
                    bytes: write_reply(REPLY_SUCCEEDED, &local),
                    next: AfterReply::Accept { local },
                },
                Event::Failed => closed(Failure::Io),
                _ => Session::Listen { at },
            },
            Session::Accept { local } => match event {
                Event::Address(from) => Session::Reply {
                    bytes: write_reply(REPLY_SUCCEEDED, &from),
                    next: AfterReply::Relay,
                },
                Event::TimedOut => Session::Reply {
                    bytes: write_reply(REPLY_CONNECTION_REFUSED, &local),
                    next: AfterReply::Close(Failure::BindTimedOut),
                },
                Event::Failed => closed(Failure::Io),
                _ => Session::Accept { local },
            },
            Session::OpenUdp { client, at } => match event {
                Event::Address(local) => Session::Reply {
                    bytes: write_reply(REPLY_SUCCEEDED, &local),
                    next: AfterReply::RelayUdp { client },
                },
                Event::Failed => closed(Failure::Io),
                _ => Session::OpenUdp { client, at },
            },
            Session::Reply { bytes, next } => match event {
                Event::Done => match next {
                    AfterReply::Relay => Session::Relay,
                    AfterReply::Accept { local } => Session::Accept { local },
                    AfterReply::RelayUdp { client } => Session::RelayUdp { client },
                    AfterReply::Close(f) => closed(f),
                },
                Event::Failed => closed(Failure::Io),
                _ => Session::Reply { bytes, next },
            },
            Session::Relay => match event {
                Event::Done => Session::Closed { failure: None },
                Event::TimedOut => closed(Failure::IdleTimedOut),
                Event::Failed => closed(Failure::Io),
                _ => Session::Relay,
            },
            Session::RelayUdp { client } => match event {
                Event::Bytes(b) => {
                    if b.len() == 0 {
                        Session::Closed { failure: None }
                    } else {
                        Session::RelayUdp { client }
                    }
                },
                Event::Done => Session::Closed { failure: None },
                Event::Failed => Session::Closed { failure: None },
                _ => Session::RelayUdp { client },
            },
            Session::Closed { failure } => Session::Closed { failure },
        }
    }

    /// Whether a random address is used in what follows an event.
    pub fn wants_egress(&self, config: &Config, event: &Event) -> (r: bool)
        ensures
            r == needs_egress(config@, self@, event@),
    {
        if !config.random_egress_ipv6 {
            return false;
        }
        match (self, event) {
            (Session::Request { received, need }, Event::Bytes(b)) => {
                if b.len() != *need {
                    return false;
                }
                let mut all: Vec<u8> = Vec::new();
                append_bytes(&mut all, received.as_slice());
                append_bytes(&mut all, b.as_slice());
                assert(all@ =~= received@ + b@);
                match read_request(all.as_slice()) {
                    RequestStatus::Ready { request, .. } => match request.target {
                        TargetAddr::Ip(ip) => request.command == COMMAND_CONNECT && ip.is_ipv6(),
                        TargetAddr::Domain(_) => false,
                    },
                    _ => false,
                }
            },
            (Session::Resolve { .. }, Event::Addresses(list)) => {
                match resolve_target(list.as_slice(), true) {
                    Some(target) => target.is_ipv6(),
                    None => false,
                }
            },
            (Session::Peer { .. }, Event::Address(peer)) => peer.is_ipv6(),
            _ => false,
        }
    }

    /// The session after an event.
    pub fn step(self, context: &Context, event: Event) -> (r: Session)
        ensures
            exists|egress: Option<Seq<u8>>|
                egress_due(context@, self@, event@, egress) && r@ == #[trigger] next_stage(
                    context@.settings,
                    self@,
                    event@,
                    egress,
                ),
    {
        let egress: Option<Ipv6Addr> = if self.wants_egress(&context.config, &event) {
            random_egress_ipv6(context.blocks.as_slice())
        } else {
            None
        };
        assert(egress_due(context@, self@, event@, octets_of(egress)));
        self.advance(&context.config, event, egress)
    }
}

} // verus!
