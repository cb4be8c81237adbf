//! Whole conversations, played against a session without a network.

use sixhop::addr::{IpAddr, Ipv4Addr, Ipv6Addr, SocketAddr};
use sixhop::block::{parse_ipv6_blocks, Ipv6Block};
use sixhop::config::{load_config, Args, Config, EnvConfig, FileConfig};
use sixhop::failure::{Failure, FailureKind};
use sixhop::handshake::{authenticate, handshake, HandshakeStatus};
use sixhop::pump::{pump, PumpAction, PumpEvent};
use sixhop::request::{fail_reply, read_request, read_target_addr, write_reply};
use sixhop::request::{Request, RequestStatus, TargetAddr, TargetStatus};
use sixhop::session::{relay_event, resolve_target, Action, Context, Event, Phase, Session};
use sixhop::udp::{UdpAction, UdpRelay};

fn v4(a: u8, b: u8, c: u8, d: u8, port: u16) -> SocketAddr {
    SocketAddr::new(IpAddr::V4(Ipv4Addr { octets: [a, b, c, d] }), port)
}

fn v6(last: u8, port: u16) -> SocketAddr {
    let mut octets = [0u8; 16];
    octets[0] = 0x20;
    octets[1] = 0x01;
    octets[15] = last;
    SocketAddr::new(IpAddr::V6(Ipv6Addr { octets }), port)
}

fn no_file() -> FileConfig {
    FileConfig {
        bind_addr: None,
        username: None,
        password: None,
        random_egress_ipv6: None,
        ipv6_blocks: None,
        force_ipv6: None,
        buffer_size: None,
        max_connections: None,
        handshake_timeout: None,
        idle_timeout: None,
        log_level: None,
    }
}

fn no_env() -> EnvConfig {
    EnvConfig {
        bind: None,
        username: None,
        password: None,
        random_ipv6: None,
        ipv6_blocks: None,
        force_ipv6: None,
        buffer_size: None,
        max_connections: None,
        handshake_timeout: None,
        idle_timeout: None,
        log: None,
    }
}

fn no_args() -> Args {
    Args {
        bind: None,
        username: None,
        password: None,
        random_ipv6: None,
        ipv6_block: Vec::new(),
        force_ipv6: None,
        buffer_size: None,
        max_connections: None,
        handshake_timeout: None,
        idle_timeout: None,
        log_level: None,
    }
}

fn context(config: Config) -> Context {
    let blocks = parse_ipv6_blocks(&config.ipv6_blocks).unwrap();
    Context { config, blocks }
}

fn open_context() -> Context {
    context(load_config(no_file(), no_env(), no_args()).unwrap())
}

fn guarded_context() -> Context {
    let mut args = no_args();
    args.username = Some("test".to_string());
    args.password = Some("secret".to_string());
    context(load_config(no_file(), no_env(), args).unwrap())
}

fn random_context(force: bool) -> Context {
    let mut args = no_args();
    args.random_ipv6 = Some(true);
    args.force_ipv6 = Some(force);
    args.ipv6_block = vec!["2001:db8:aaaa::/48".to_string()];
    context(load_config(no_file(), no_env(), args).unwrap())
}

/// Hands out what the client sends, byte by byte, as the session asks for it; collects what the
/// session writes; stops at the first action that is neither.
fn talk(context: &Context, mut s: Session, input: &mut Vec<u8>, output: &mut Vec<u8>) -> Session {
    loop {
        match s.action() {
            Action::Read(n) => {
                if input.len() < n {
                    return s;
                }
                let rest = input.split_off(n);
                let bytes = std::mem::replace(input, rest);
                s = s.step(context, Event::Bytes(bytes));
            }
            Action::Write(bytes) => {
                output.extend_from_slice(&bytes);
                s = s.step(context, Event::Done);
            }
            _ => return s,
        }
    }
}

/// Passes bytes on in one direction, a few at a time, until they end.
fn copy_all(data: &[u8], buffer: usize) -> Vec<u8> {
    let mut timer = None;
    let mut out = Vec::new();
    let mut at = 0;
    loop {
        let n = std::cmp::min(buffer, data.len() - at);
        match pump(&mut timer, 0, PumpEvent::Read(n)) {
            PumpAction::Write(n) => {
                out.extend_from_slice(&data[at..at + n]);
                at += n;
            }
            PumpAction::Finish => return out,
            other => panic!("{:?}", other),
        }
    }
}

/// Plays a CONNECT to an IPv4 echo server whose connection comes about.
fn connect_and_echo(context: &Context, s: Session, target: SocketAddr, payload: &[u8]) {
    let (ip, port) = match target {
        SocketAddr::V4 { ip, port } => (ip.octets, port),
        _ => panic!("an IPv4 echo server"),
    };
    let mut input = vec![5, 1, 0, 1];
    input.extend_from_slice(&ip);
    input.extend_from_slice(&port.to_be_bytes());
    input.extend_from_slice(payload);
    let mut output = Vec::new();
    let s = talk(context, s, &mut input, &mut output);
    assert_eq!(s.action(), Action::Connect { target, source: None, within_secs: 30 });
    assert_eq!(input, payload.to_vec());
    let s = s.step(context, Event::Done);
    assert_eq!(s.action(), Action::LocalAddress);
    let s = s.step(context, Event::Address(v4(127, 0, 0, 1, 40000)));
    let s = talk(context, s, &mut Vec::new(), &mut output);
    assert_eq!(output.len(), 10);
    assert_eq!(&output[..3], &[5, 0, 0]);
    assert_eq!(&output[3..], &[1, 127, 0, 0, 1, 0x9c, 0x40]);
    assert_eq!(s.action(), Action::Relay);
    let at_target = copy_all(&input, context.config.buffer_size);
    assert_eq!(copy_all(&at_target, context.config.buffer_size), payload.to_vec());
    let s = s.step(context, Event::Done);
    assert_eq!(s.action(), Action::Close { failure: None });
}

#[test]
fn test_no_auth_connect_echo() {
    let ctx = open_context();
    let mut input = vec![5, 1, 0];
    let mut output = Vec::new();
    let s = talk(&ctx, Session::new(), &mut input, &mut output);
    assert_eq!(output, vec![5, 0]);
    connect_and_echo(&ctx, s, v4(127, 0, 0, 1, 7007), b"hello socks5");
}

#[test]
fn test_auth_connect_echo() {
    let ctx = guarded_context();
    let mut input = vec![5, 1, 2];
    let mut output = Vec::new();
    let s = talk(&ctx, Session::new(), &mut input, &mut output);
    assert_eq!(output, vec![5, 2]);
    let mut input = vec![1, 4, b't', b'e', b's', b't', 6, b's', b'e', b'c', b'r', b'e', b't'];
    let mut output = Vec::new();
    let s = talk(&ctx, s, &mut input, &mut output);
    assert_eq!(output, vec![1, 0]);
    connect_and_echo(&ctx, s, v4(127, 0, 0, 1, 7007), b"auth ok");
}

#[test]
fn test_wrong_password_rejected() {
    let ctx = guarded_context();
    let mut input = vec![5, 1, 2];
    let mut output = Vec::new();
    let s = talk(&ctx, Session::new(), &mut input, &mut output);
    assert_eq!(output, vec![5, 2]);
    let mut input = vec![1, 4, b't', b'e', b's', b't', 5, b'w', b'r', b'o', b'n', b'g'];
    let mut output = Vec::new();
    let s = talk(&ctx, s, &mut input, &mut output);
    assert_eq!(output, vec![1, 1]);
    assert_eq!(s.action(), Action::Close { failure: Some(Failure::AuthenticationFailed) });
}

#[test]
fn test_no_auth_rejected_when_auth_enabled() {
    let ctx = guarded_context();
    let mut input = vec![5, 1, 0];
    let mut output = Vec::new();
    let s = talk(&ctx, Session::new(), &mut input, &mut output);
    assert_eq!(output, vec![5, 0xff]);
    assert_eq!(s.action(), Action::Close { failure: Some(Failure::NoAcceptableMethod) });
}

#[test]
fn test_bind_command() {
    let ctx = open_context();
    let mut input = vec![5, 1, 0];
    let mut output = Vec::new();
    let s = talk(&ctx, Session::new(), &mut input, &mut output);
    assert_eq!(output, vec![5, 0]);

    let mut input = vec![5, 2, 0, 1, 0, 0, 0, 0, 0, 0];
    let mut output = Vec::new();
    let s = talk(&ctx, s, &mut input, &mut output);
    assert_eq!(s.action(), Action::PeerAddress);
    let s = s.step(&ctx, Event::Address(v4(127, 0, 0, 1, 50000)));
    assert_eq!(s.action(), Action::Listen { at: v4(0, 0, 0, 0, 0), backlog: 1024 });
    let s = s.step(&ctx, Event::Address(v4(0, 0, 0, 0, 50001)));
    let s = talk(&ctx, s, &mut input, &mut output);
    assert_eq!(output.len(), 10);
    assert_eq!(&output[..3], &[5, 0, 0]);
    assert_eq!(output[3], 1);
    assert_eq!(u16::from_be_bytes([output[8], output[9]]), 50001);
    assert_eq!(s.action(), Action::Accept { within_secs: 120 });

    let mut output = Vec::new();
    let s = s.step(&ctx, Event::Address(v4(127, 0, 0, 1, 50002)));
    let s = talk(&ctx, s, &mut input, &mut output);
    assert_eq!(&output[..3], &[5, 0, 0]);
    assert_eq!(&output[3..], &[1, 127, 0, 0, 1, 0xc3, 0x52]);
    assert_eq!(s.action(), Action::Relay);
    assert_eq!(copy_all(b"bind hello", ctx.config.buffer_size), b"bind hello".to_vec());
}

#[test]
fn test_udp_associate() {
    let ctx = open_context();
    let mut input = vec![5, 1, 0];
    let mut output = Vec::new();
    let s = talk(&ctx, Session::new(), &mut input, &mut output);
    assert_eq!(output, vec![5, 0]);

    let mut input = vec![5, 3, 0, 1, 0, 0, 0, 0, 0, 0];
    let mut output = Vec::new();
    let s = talk(&ctx, s, &mut input, &mut output);
    assert_eq!(s.action(), Action::PeerAddress);
    let control = v4(127, 0, 0, 1, 50000);
    let s = s.step(&ctx, Event::Address(control));
    assert_eq!(s.action(), Action::OpenUdp { at: v4(0, 0, 0, 0, 0) });
    let s = s.step(&ctx, Event::Address(v4(0, 0, 0, 0, 50003)));
    let s = talk(&ctx, s, &mut input, &mut output);
    assert_eq!(&output[..3], &[5, 0, 0]);
    assert_eq!(output[3], 1);
    assert_eq!(s.action(), Action::RelayUdp { client: control });

    let echo = v4(127, 0, 0, 2, 9009);
    let client_udp = v4(127, 0, 0, 1, 51000);
    let mut relay = UdpRelay::new(&ctx.config, control);
    let mut pkt = vec![0, 0, 0, 1, 127, 0, 0, 2];
    pkt.extend_from_slice(&9009u16.to_be_bytes());
    pkt.extend_from_slice(b"udp-ping");
    assert_eq!(relay.udp_relay(client_udp, &pkt), UdpAction::Forward { target: echo, from: 10 });
    assert_eq!(&pkt[10..], b"udp-ping");
    assert_eq!(relay.client, client_udp);

    let resp = match relay.udp_relay(echo, b"udp-ping") {
        UdpAction::Return { packet } => packet,
        other => panic!("{:?}", other),
    };
    assert!(resp.len() >= 10);
    assert_eq!(&resp[..3], &[0, 0, 0]);
    assert_eq!(resp[3], 1);
    assert_eq!(&resp[4..8], &[127, 0, 0, 2]);
    assert_eq!(u16::from_be_bytes([resp[8], resp[9]]), 9009);
    assert_eq!(&resp[10..], b"udp-ping");
    assert_eq!(relay.client, client_udp);

    let s = s.step(&ctx, Event::Bytes(vec![1, 2, 3]));
    assert_eq!(s.action(), Action::RelayUdp { client: control });
    let s = s.step(&ctx, Event::Bytes(Vec::new()));
    assert_eq!(s.action(), Action::Close { failure: None });
}

#[test]
fn test_env_config() {
    let mut env = no_env();
    env.bind = Some("127.0.0.1:1090".to_string());
    env.username = Some("envuser".to_string());
    env.password = Some("envpass".to_string());
    let ctx = context(load_config(no_file(), env, no_args()).unwrap());
    assert_eq!(ctx.config.bind_addr, "127.0.0.1:1090");
    let mut input = vec![5, 1, 2];
    let mut output = Vec::new();
    let s = talk(&ctx, Session::new(), &mut input, &mut output);
    assert_eq!(output, vec![5, 2]);
    let mut input = vec![
        1, 7, b'e', b'n', b'v', b'u', b's', b'e', b'r', 7, b'e', b'n', b'v', b'p', b'a', b's', b's',
    ];
    let mut output = Vec::new();
    talk(&ctx, s, &mut input, &mut output);
    assert_eq!(output, vec![1, 0]);
}

fn reach(ctx: &Context, request: &[u8]) -> (Session, Vec<u8>) {
    let mut input = vec![5, 1, 0];
    input.extend_from_slice(request);
    let mut output = Vec::new();
    let s = talk(ctx, Session::new(), &mut input, &mut output);
    (s, output)
}

#[test]
fn greetings_that_are_refused() {
    let ctx = open_context();
    let h = handshake(&ctx.config, &[4]);
    assert_eq!((h.sent, h.status), (vec![], HandshakeStatus::Refused(Failure::NotSocks5)));
    let h = handshake(&ctx.config, &[5, 0]);
    assert_eq!((h.sent, h.status), (vec![5, 0xff], HandshakeStatus::Refused(Failure::NoMethods)));
    let h = handshake(&ctx.config, &[5, 2, 1, 2]);
    assert_eq!(h.sent, vec![5, 0xff]);
    assert_eq!(h.status, HandshakeStatus::Refused(Failure::NoAcceptableMethod));
    let ctx = guarded_context();
    let h = handshake(&ctx.config, &[5, 1, 2, 5]);
    assert_eq!(h.sent, vec![5, 2]);
    assert_eq!(h.status, HandshakeStatus::Refused(Failure::NotPasswordAuthentication));
}

#[test]
fn refusals_are_the_last_that_is_written() {
    let ctx = open_context();
    for (request, event, code, failure) in [
        (vec![5, 9, 0, 1, 1, 2, 3, 4, 0, 80], None, 7, Failure::UnsupportedCommand),
        (vec![5, 1, 0, 3, 1, b'x', 0, 80], Some(Event::Addresses(Vec::new())), 4, Failure::NoAddressFound),
        (vec![5, 1, 0, 1, 1, 2, 3, 4, 0, 80], Some(Event::TimedOut), 5, Failure::ConnectTimedOut),
    ] {
        let (mut s, mut output) = reach(&ctx, &request);
        if let Some(event) = event {
            s = talk(&ctx, s.step(&ctx, event), &mut Vec::new(), &mut output);
        }
        assert_eq!(s.action(), Action::Close { failure: Some(failure) });
        let mut all = vec![5, 0];
        all.extend_from_slice(&fail_reply(code));
        assert_eq!(output, all);
    }
}

#[test]
fn a_refused_greeting_is_answered_before_the_end() {
    let ctx = open_context();
    let mut input = vec![5, 0, 99];
    let mut output = Vec::new();
    let s = talk(&ctx, Session::new(), &mut input, &mut output);
    assert_eq!(output, vec![5, 0xff]);
    assert_eq!(input, vec![99]);
    assert_eq!(s.action(), Action::Close { failure: Some(Failure::NoMethods) });
}

#[test]
fn what_the_handshake_waits_for() {
    let ctx = guarded_context();
    let c = &ctx.config;
    assert_eq!(handshake(c, &[]).status, HandshakeStatus::Need(1));
    assert_eq!(handshake(c, &[5]).status, HandshakeStatus::Need(1));
    assert_eq!(handshake(c, &[5, 3]).status, HandshakeStatus::Need(3));
    assert_eq!(handshake(c, &[5, 3, 0]).status, HandshakeStatus::Need(2));
    let h = handshake(c, &[5, 3, 0, 1, 2]);
    assert_eq!((h.sent, h.status), (vec![5, 2], HandshakeStatus::Need(1)));
    assert_eq!(handshake(c, &[5, 1, 2, 1]).status, HandshakeStatus::Need(1));
    assert_eq!(handshake(c, &[5, 1, 2, 1, 4]).status, HandshakeStatus::Need(4));
    let mut all = vec![5, 1, 2, 1, 4];
    all.extend_from_slice(b"test");
    assert_eq!(handshake(c, &all).status, HandshakeStatus::Need(1));
    all.push(6);
    assert_eq!(handshake(c, &all).status, HandshakeStatus::Need(6));
    all.extend_from_slice(b"secret");
    let h = handshake(c, &all);
    assert_eq!((h.sent, h.status), (vec![5, 2, 1, 0], HandshakeStatus::Accepted(16)));
    all.extend_from_slice(b"behind");
    let h = handshake(c, &all);
    assert_eq!((h.sent, h.status), (vec![5, 2, 1, 0], HandshakeStatus::Accepted(16)));
}

#[test]
fn empty_credentials_are_credentials() {
    let h = authenticate(b"", b"", &[1, 0, 0]);
    assert_eq!((h.sent, h.status), (vec![1, 0], HandshakeStatus::Accepted(3)));
    let h = authenticate(b"", b"x", &[1, 0, 0]);
    assert_eq!((h.sent, h.status), (vec![1, 1], HandshakeStatus::Refused(Failure::AuthenticationFailed)));
    let h = authenticate(b"a", b"b", &[1, 1, b'a', 1, b'b']);
    assert_eq!(h.status, HandshakeStatus::Accepted(5));
    let h = authenticate(b"a", b"b", &[1, 1, b'b', 1, b'b']);
    assert_eq!(h.status, HandshakeStatus::Refused(Failure::AuthenticationFailed));
}

#[test]
fn requests_that_are_refused() {
    assert_eq!(read_request(&[4]), RequestStatus::Refused(Failure::NotSocks5Request));
    assert_eq!(read_request(&[5, 1, 1]), RequestStatus::Refused(Failure::ReservedNotZero));
    assert_eq!(read_request(&[5, 1, 0, 2]), RequestStatus::Refused(Failure::UnsupportedAddressType));
    let bad = [5, 1, 0, 3, 2, 0xc3, 0x28];
    assert_eq!(read_request(&bad), RequestStatus::Refused(Failure::InvalidDomain));
    let ctx = open_context();
    let (s, output) = reach(&ctx, &bad);
    assert_eq!(output, vec![5, 0]);
    assert_eq!(s.action(), Action::Close { failure: Some(Failure::InvalidDomain) });
}

#[test]
fn requests_with_every_kind_of_address() {
    let r = read_request(&[5, 1, 0, 1, 10, 0, 0, 7, 0x1f, 0x90]);
    assert_eq!(
        r,
        RequestStatus::Ready {
            request: Request {
                command: 1,
                target: TargetAddr::Ip(IpAddr::V4(Ipv4Addr { octets: [10, 0, 0, 7] })),
                port: 8080,
            },
            used: 10,
        }
    );
    let mut input = vec![5, 9, 0, 3, 6];
    input.extend_from_slice("é.org".as_bytes());
    input.extend_from_slice(&[0, 80, 77]);
    assert_eq!(
        read_request(&input),
        RequestStatus::Ready {
            request: Request { command: 9, target: TargetAddr::Domain("é.org".to_string()), port: 80 },
            used: 13,
        }
    );
    let mut input = vec![5, 2, 0, 4];
    let octets: [u8; 16] = [0x20, 1, 0xd, 0xb8, 4, 5, 6, 7, 8, 9, 10, 11, 12, 13, 14, 15];
    input.extend_from_slice(&octets);
    assert_eq!(read_request(&input), RequestStatus::Need(2));
    input.extend_from_slice(&[1, 2]);
    assert_eq!(
        read_request(&input),
        RequestStatus::Ready {
            request: Request {
                command: 2,
                target: TargetAddr::Ip(IpAddr::V6(Ipv6Addr { octets })),
                port: 258,
            },
            used: 22,
        }
    );
}

#[test]
fn what_a_request_waits_for() {
    assert_eq!(read_request(&[]), RequestStatus::Need(1));
    assert_eq!(read_request(&[5]), RequestStatus::Need(1));
    assert_eq!(read_request(&[5, 1]), RequestStatus::Need(1));
    assert_eq!(read_request(&[5, 1, 0]), RequestStatus::Need(1));
    assert_eq!(read_request(&[5, 1, 0, 1]), RequestStatus::Need(4));
    assert_eq!(read_request(&[5, 1, 0, 1, 1, 2, 3]), RequestStatus::Need(1));
    assert_eq!(read_request(&[5, 1, 0, 4]), RequestStatus::Need(16));
    assert_eq!(read_request(&[5, 1, 0, 3]), RequestStatus::Need(1));
    assert_eq!(read_request(&[5, 1, 0, 3, 3]), RequestStatus::Need(3));
    assert_eq!(read_request(&[5, 1, 0, 3, 0]), RequestStatus::Need(2));
    assert_eq!(
        read_target_addr(&[3, 0, 0, 1]),
        TargetStatus::Ready { target: TargetAddr::Domain(String::new()), port: 1, used: 4 }
    );
}

#[test]
fn replies() {
    assert_eq!(write_reply(0, &v4(1, 2, 3, 4, 0x1234)), vec![5, 0, 0, 1, 1, 2, 3, 4, 0x12, 0x34]);
    let r = write_reply(5, &v6(9, 443));
    assert_eq!(r.len(), 22);
    assert_eq!(&r[..6], &[5, 5, 0, 4, 0x20, 0x01]);
    assert_eq!(&r[19..], &[9, 1, 187]);
    assert_eq!(fail_reply(4), vec![5, 4, 0, 1, 0, 0, 0, 0, 0, 0]);
}

#[test]
fn the_address_of_a_reply_reads_back() {
    for a in [v4(9, 8, 7, 6, 65535), v6(3, 1)] {
        let r = write_reply(0, &a);
        assert_eq!(
            read_target_addr(&r[3..]),
            TargetStatus::Ready { target: TargetAddr::Ip(a.ip()), port: a.port(), used: r.len() - 3 }
        );
    }
}

#[test]
fn unknown_commands_are_answered() {
    let ctx = open_context();
    let (s, output) = reach(&ctx, &[5, 4, 0, 1, 1, 2, 3, 4, 0, 80]);
    assert_eq!(&output[2..], &[5, 7, 0, 1, 0, 0, 0, 0, 0, 0]);
    assert_eq!(s.action(), Action::Close { failure: Some(Failure::UnsupportedCommand) });
}

#[test]
fn names_that_cannot_be_resolved_are_answered() {
    let ctx = open_context();
    let request = [5, 1, 0, 3, 1, b'x', 0, 80];
    let (s, _) = reach(&ctx, &request);
    assert_eq!(s.action(), Action::Resolve { domain: "x".to_string(), port: 80 });
    let mut output = Vec::new();
    let s = talk(&ctx, s.step(&ctx, Event::Failed), &mut Vec::new(), &mut output);
    assert_eq!(output, fail_reply(4));
    assert_eq!(s.action(), Action::Close { failure: Some(Failure::Io) });

    let (s, _) = reach(&ctx, &request);
    let mut output = Vec::new();
    let s = talk(&ctx, s.step(&ctx, Event::Addresses(Vec::new())), &mut Vec::new(), &mut output);
    assert_eq!(output, fail_reply(4));
    assert_eq!(s.action(), Action::Close { failure: Some(Failure::NoAddressFound) });
}

#[test]
fn connections_that_fail_are_answered() {
    let ctx = open_context();
    let request = [5, 1, 0, 1, 1, 2, 3, 4, 0, 80];
    for (event, failure) in [
        (Event::Failed, Failure::Io),
        (Event::TimedOut, Failure::ConnectTimedOut),
    ] {
        let (s, _) = reach(&ctx, &request);
        let mut output = Vec::new();
        let s = talk(&ctx, s.step(&ctx, event), &mut Vec::new(), &mut output);
        assert_eq!(output, fail_reply(5));
        assert_eq!(s.action(), Action::Close { failure: Some(failure) });
    }
}

#[test]
fn a_bind_that_nobody_answers_times_out() {
    let ctx = open_context();
    let (s, _) = reach(&ctx, &[5, 2, 0, 1, 0, 0, 0, 0, 0, 0]);
    let s = s.step(&ctx, Event::Address(v6(1, 1)));
    assert_eq!(
        s.action(),
        Action::Listen { at: SocketAddr::new(IpAddr::V6(Ipv6Addr { octets: [0; 16] }), 0), backlog: 1024 }
    );
    let local = v6(2, 4444);
    let mut output = Vec::new();
    let s = talk(&ctx, s.step(&ctx, Event::Address(local)), &mut Vec::new(), &mut output);
    let mut output = Vec::new();
    let s = talk(&ctx, s.step(&ctx, Event::TimedOut), &mut Vec::new(), &mut output);
    assert_eq!(output, write_reply(5, &local));
    assert_eq!(s.action(), Action::Close { failure: Some(Failure::BindTimedOut) });
}

#[test]
fn phases_and_their_limits() {
    let ctx = guarded_context();
    let s = Session::new();
    assert_eq!(s.phase(), Phase::Handshake);
    let s = s.step(&ctx, Event::TimedOut);
    assert_eq!(s.action(), Action::Close { failure: Some(Failure::HandshakeTimedOut) });
    let ctx = open_context();
    let mut output = Vec::new();
    let s = talk(&ctx, Session::new(), &mut vec![5, 1, 0], &mut output);
    assert_eq!(s.phase(), Phase::Request);
    let s = s.step(&ctx, Event::TimedOut);
    assert_eq!(s.action(), Action::Close { failure: Some(Failure::RequestTimedOut) });
    let (s, _) = reach(&ctx, &[5, 2, 0, 1, 0, 0, 0, 0, 0, 0]);
    assert_eq!(s.phase(), Phase::Service);
    let s = s.step(&ctx, Event::TimedOut);
    assert_eq!(s.action(), Action::PeerAddress);
    let s = Session::Relay.step(&ctx, Event::TimedOut);
    assert_eq!(s.action(), Action::Close { failure: Some(Failure::IdleTimedOut) });
    let s = s.step(&ctx, Event::Done);
    assert_eq!(s.action(), Action::Close { failure: Some(Failure::IdleTimedOut) });
}

#[test]
fn only_handshake_and_request_are_limited() {
    let mut args = no_args();
    args.handshake_timeout = Some(7);
    let ctx = context(load_config(no_file(), no_env(), args).unwrap());
    let s = Session::new();
    assert_eq!(s.limit_secs(&ctx.config), Some(7));
    let s = talk(&ctx, s, &mut vec![5, 1], &mut Vec::new());
    assert_eq!(s.limit_secs(&ctx.config), Some(7));
    let s = talk(&ctx, s, &mut vec![0], &mut Vec::new());
    assert_eq!((s.phase(), s.limit_secs(&ctx.config)), (Phase::Request, Some(7)));
    let s = talk(&ctx, s, &mut vec![5, 1, 0, 1, 1, 2, 3, 4, 0, 80], &mut Vec::new());
    assert_eq!(s.limit_secs(&ctx.config), None);
    assert_eq!(Session::Relay.limit_secs(&ctx.config), None);
    assert_eq!(Session::Closed { failure: None }.limit_secs(&ctx.config), None);
}

#[test]
fn the_end_of_the_relay_ends_the_connection() {
    let ctx = open_context();
    assert_eq!(relay_event(PumpAction::Wait), None);
    assert_eq!(relay_event(PumpAction::Write(3)), None);
    for (action, failure) in [
        (PumpAction::Finish, None),
        (PumpAction::Fail(Failure::IdleTimedOut), Some(Failure::IdleTimedOut)),
        (PumpAction::Fail(Failure::Io), Some(Failure::Io)),
    ] {
        let s = Session::Relay.step(&ctx, relay_event(action).unwrap());
        assert_eq!(s.action(), Action::Close { failure });
    }
}

#[test]
fn events_that_answer_nothing_change_nothing() {
    let ctx = open_context();
    let s = Session::new().step(&ctx, Event::Bytes(vec![5, 1]));
    assert_eq!(s, Session::new());
    let s = s.step(&ctx, Event::Done).step(&ctx, Event::Address(v4(1, 1, 1, 1, 1)));
    assert_eq!(s.action(), Action::Read(1));
    let s = s.step(&ctx, Event::Failed);
    assert_eq!(s.action(), Action::Close { failure: Some(Failure::Io) });
}

#[test]
fn addresses_that_are_preferred() {
    let list = [v4(1, 1, 1, 1, 80), v6(1, 80), v6(2, 80)];
    assert_eq!(resolve_target(&list, false), Some(list[0]));
    assert_eq!(resolve_target(&list, true), Some(list[1]));
    assert_eq!(resolve_target(&list[..1], true), Some(list[0]));
    assert_eq!(resolve_target(&[], true), None);
}

fn in_aaaa(ip: IpAddr) -> bool {
    match ip {
        IpAddr::V6(a) => {
            a.octets[..6] == [0x20, 0x01, 0x0d, 0xb8, 0xaa, 0xaa] && a.octets[6..].iter().any(|o| *o != 0)
        }
        IpAddr::V4(_) => false,
    }
}

#[test]
fn ipv6_targets_get_random_sources() {
    let ctx = random_context(false);
    let mut request = vec![5, 1, 0, 4];
    request.extend_from_slice(&[7u8; 16]);
    request.extend_from_slice(&[0, 80]);
    let mut seen = Vec::new();
    for _ in 0..20 {
        let (s, _) = reach(&ctx, &request);
        match s.action() {
            Action::Connect { source: Some(source), .. } => {
                assert!(in_aaaa(source.ip()));
                assert_eq!(source.port(), 0);
                seen.push(source);
            }
            other => panic!("{:?}", other),
        }
    }
    assert!(seen.iter().any(|a| *a != seen[0]));

    let (s, _) = reach(&ctx, &[5, 1, 0, 3, 1, b'x', 0, 80]);
    let s = s.step(&ctx, Event::Addresses(vec![v4(1, 1, 1, 1, 80), v6(1, 80)]));
    match s.action() {
        Action::Connect { target, source: Some(source), .. } => {
            assert_eq!(target, v6(1, 80));
            assert!(in_aaaa(source.ip()));
        }
        other => panic!("{:?}", other),
    }

    for command in [2, 3] {
        let (s, _) = reach(&ctx, &[5, command, 0, 1, 0, 0, 0, 0, 0, 0]);
        match s.step(&ctx, Event::Address(v6(5, 5))).action() {
            Action::Listen { at, .. } => assert!(command == 2 && in_aaaa(at.ip())),
            Action::OpenUdp { at } => assert!(command == 3 && in_aaaa(at.ip())),
            other => panic!("{:?}", other),
        }
    }
}

#[test]
fn ipv4_targets_beside_random_sources() {
    let request = [5, 1, 0, 1, 1, 2, 3, 4, 0, 80];
    let ctx = random_context(false);
    let (s, _) = reach(&ctx, &request);
    assert_eq!(
        s.action(),
        Action::Connect { target: v4(1, 2, 3, 4, 80), source: None, within_secs: 30 }
    );
    let ctx = random_context(true);
    let (s, output) = reach(&ctx, &request);
    assert_eq!(&output[2..], &fail_reply(2)[..]);
    assert_eq!(s.action(), Action::Close { failure: Some(Failure::Ipv4Refused) });
    let (s, _) = reach(&ctx, &[5, 1, 0, 3, 1, b'x', 0, 80]);
    let mut output = Vec::new();
    let s = s.step(&ctx, Event::Addresses(vec![v4(1, 1, 1, 1, 80)]));
    let s = talk(&ctx, s, &mut Vec::new(), &mut output);
    assert_eq!(output, fail_reply(2));
    assert_eq!(s.action(), Action::Close { failure: Some(Failure::Ipv4Refused) });
}

#[test]
fn no_block_no_source() {
    let mut ctx = random_context(false);
    ctx.blocks = Vec::<Ipv6Block>::new();
    let mut request = vec![5, 1, 0, 4];
    request.extend_from_slice(&[7u8; 16]);
    request.extend_from_slice(&[0, 80]);
    let (s, _) = reach(&ctx, &request);
    match s.action() {
        Action::Connect { source, .. } => assert_eq!(source, None),
        other => panic!("{:?}", other),
    }
}

#[test]
fn failures_have_kinds_and_words() {
    let all = [
        (Failure::NotSocks5, FailureKind::InvalidData, "非 SOCKS5 协议"),
        (Failure::NoMethods, FailureKind::InvalidData, "无认证方法"),
        (Failure::NoAcceptableMethod, FailureKind::Other, "没有可接受的认证方法"),
        (Failure::NotPasswordAuthentication, FailureKind::InvalidData, "非 RFC1929 认证"),
        (Failure::AuthenticationFailed, FailureKind::PermissionDenied, "认证失败"),
        (Failure::NotSocks5Request, FailureKind::InvalidData, "非 SOCKS5 请求"),
        (Failure::ReservedNotZero, FailureKind::InvalidData, "RSV 字段必须为 0"),
        (Failure::UnsupportedAddressType, FailureKind::InvalidData, "不支持的地址类型"),
        (Failure::InvalidDomain, FailureKind::InvalidData, "域名非法"),
        (Failure::UnsupportedCommand, FailureKind::InvalidData, "不支持的命令"),
        (Failure::NoAddressFound, FailureKind::NotFound, "域名解析无结果"),
        (Failure::Ipv4Refused, FailureKind::AddrNotAvailable, "强制 IPv6 出口，拒绝 IPv4 目标"),
        (Failure::HandshakeTimedOut, FailureKind::TimedOut, "握手超时"),
        (Failure::RequestTimedOut, FailureKind::TimedOut, "请求读取超时"),
        (Failure::ConnectTimedOut, FailureKind::TimedOut, "出站连接超时"),
        (Failure::BindTimedOut, FailureKind::TimedOut, "BIND 等待对端连接超时"),
        (Failure::IdleTimedOut, FailureKind::TimedOut, "连接空闲超时"),
        (Failure::Io, FailureKind::OfTheError, "I/O 错误"),
    ];
    for (failure, kind, words) in all {
        assert_eq!(failure.kind(), kind);
        assert_eq!(failure.message(), words);
    }
}
