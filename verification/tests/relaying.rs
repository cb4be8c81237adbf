//! Relaying bytes and datagrams, and admitting connections.

use sixhop::addr::{IpAddr, Ipv4Addr, Ipv6Addr, SocketAddr};
use sixhop::config::Config;
use sixhop::failure::Failure;
use sixhop::pump::{pump, relay_buffer_size, relay_timer, IdleTimer, PumpAction, PumpEvent};
use sixhop::server::{drain_step, listen_step, ConnectionGate, Drain, ServerAction, ServerEvent};
use sixhop::udp::{RelayEvent, UdpAction, UdpRelay};

fn v4(a: u8, b: u8, c: u8, d: u8, port: u16) -> SocketAddr {
    SocketAddr::new(IpAddr::V4(Ipv4Addr { octets: [a, b, c, d] }), port)
}

fn v6(octet: u8, port: u16) -> SocketAddr {
    SocketAddr::new(IpAddr::V6(Ipv6Addr { octets: [octet; 16] }), port)
}

fn relay() -> UdpRelay {
    UdpRelay::new(&Config::default(), v4(10, 0, 0, 1, 1000))
}

fn strict_relay() -> UdpRelay {
    let mut config = Config::default();
    config.random_egress_ipv6 = true;
    config.force_ipv6 = true;
    UdpRelay::new(&config, v4(10, 0, 0, 1, 1000))
}

#[test]
fn datagrams_that_are_dropped() {
    let from = v4(10, 0, 0, 1, 1001);
    let good = [0, 0, 0, 1, 1, 2, 3, 4, 0, 80, 9];
    for i in 0..3 {
        let mut bad = good;
        bad[i] = 1;
        assert_eq!(relay().udp_relay(from, &bad), UdpAction::Drop);
    }
    for n in 0..10 {
        assert_eq!(relay().udp_relay(from, &good[..n]), UdpAction::Drop);
    }
    assert_eq!(relay().udp_relay(from, &[0, 0, 0, 2, 1, 2, 3, 4, 0, 80]), UdpAction::Drop);
    assert_eq!(relay().udp_relay(from, &[0, 0, 0, 3, 1, 0xff, 0, 80]), UdpAction::Drop);
    let mut r = relay();
    r.udp_relay(from, &[]);
    assert_eq!(r.client, from);
}

#[test]
fn datagrams_that_are_forwarded() {
    let from = v4(10, 0, 0, 1, 1001);
    assert_eq!(
        relay().udp_relay(from, &[0, 0, 0, 1, 1, 2, 3, 4, 0, 80]),
        UdpAction::Forward { target: v4(1, 2, 3, 4, 80), from: 10 }
    );
    let mut packet = vec![0, 0, 0, 4];
    packet.extend_from_slice(&[6; 16]);
    packet.extend_from_slice(&[1, 0, 42]);
    assert_eq!(
        relay().udp_relay(from, &packet),
        UdpAction::Forward { target: v6(6, 256), from: 22 }
    );
}

#[test]
fn datagrams_for_names() {
    let from = v4(10, 0, 0, 1, 1001);
    let mut packet = vec![0, 0, 0, 3, 5];
    packet.extend_from_slice(b"a.org");
    packet.extend_from_slice(&[0, 53]);
    packet.extend_from_slice(b"query");
    let mut r = relay();
    assert_eq!(
        r.udp_relay(from, &packet),
        UdpAction::Resolve { domain: "a.org".to_string(), port: 53, from: 12 }
    );
    assert_eq!(&packet[12..], b"query");
    assert_eq!(
        r.resolved(Some(v4(9, 9, 9, 9, 0).ip()), 53, 12),
        UdpAction::Forward { target: v4(9, 9, 9, 9, 53), from: 12 }
    );
    assert_eq!(r.resolved(None, 53, 12), UdpAction::Drop);
}

#[test]
fn answers_read_back() {
    for src in [v4(8, 8, 8, 8, 53), v6(7, 443)] {
        let packet = match relay().udp_relay(src, b"answer") {
            UdpAction::Return { packet } => packet,
            other => panic!("{:?}", other),
        };
        match relay().udp_relay(v4(10, 0, 0, 1, 5), &packet) {
            UdpAction::Forward { target, from } => {
                assert_eq!(target, src);
                assert_eq!(&packet[from..], b"answer");
            }
            other => panic!("{:?}", other),
        }
    }
    let mut r = relay();
    r.udp_relay(v4(8, 8, 8, 8, 53), b"x");
    assert_eq!(r.client, v4(10, 0, 0, 1, 1000));
    assert_eq!(
        relay().udp_relay(v4(8, 8, 8, 8, 53), b""),
        UdpAction::Return { packet: vec![0, 0, 0, 1, 8, 8, 8, 8, 0, 53] }
    );
}

#[test]
fn ipv4_payloads_can_be_refused() {
    let from = v4(10, 0, 0, 1, 1001);
    let mut r = strict_relay();
    assert_eq!(r.udp_relay(from, &[0, 0, 0, 1, 1, 2, 3, 4, 0, 80]), UdpAction::Drop);
    assert_eq!(r.resolved(Some(v4(9, 9, 9, 9, 0).ip()), 53, 12), UdpAction::Drop);
    assert_eq!(
        r.resolved(Some(v6(9, 0).ip()), 53, 12),
        UdpAction::Forward { target: v6(9, 53), from: 12 }
    );
}

const SECOND: u64 = 1_000_000_000;

#[test]
fn pumping() {
    let mut none = None;
    assert_eq!(pump(&mut none, 0, PumpEvent::Read(0)), PumpAction::Finish);
    assert_eq!(pump(&mut none, 0, PumpEvent::Read(17)), PumpAction::Write(17));
    assert_eq!(pump(&mut none, 0, PumpEvent::Interrupted), PumpAction::Wait);
    assert_eq!(pump(&mut none, 0, PumpEvent::Failed), PumpAction::Fail(Failure::Io));
    assert_eq!(pump(&mut none, 0, PumpEvent::Expired), PumpAction::Wait);
    assert_eq!(pump(&mut none, 0, PumpEvent::Written), PumpAction::Wait);
    assert_eq!(pump(&mut none, 0, PumpEvent::WriteFailed), PumpAction::Fail(Failure::Io));
    assert_eq!(none, None);
}

#[test]
fn bytes_pass_in_order() {
    let chunks: [&[u8]; 4] = [b"ab", b"", b"cde", b"f"];
    let mut timer = Some(IdleTimer::new(0, 1));
    let mut out = Vec::new();
    for (i, chunk) in chunks.iter().enumerate() {
        if chunk.is_empty() {
            assert_eq!(pump(&mut timer, 0, PumpEvent::Interrupted), PumpAction::Wait);
            continue;
        }
        match pump(&mut timer, i as u64, PumpEvent::Read(chunk.len())) {
            PumpAction::Write(n) => out.extend_from_slice(&chunk[..n]),
            other => panic!("{:?}", other),
        }
        assert_eq!(pump(&mut timer, i as u64, PumpEvent::Written), PumpAction::Wait);
    }
    assert_eq!(pump(&mut timer, 9, PumpEvent::Read(0)), PumpAction::Finish);
    assert_eq!(out, b"abcdef".to_vec());
    assert_eq!(timer.unwrap().last, 3);
}

#[test]
fn what_a_relay_starts_with() {
    let mut config = Config::default();
    assert_eq!(relay_timer(&config, 5), None);
    assert_eq!(relay_buffer_size(&config), 4096);
    config.idle_timeout_secs = 30;
    config.buffer_size = 2048;
    assert_eq!(relay_timer(&config, 5), Some(IdleTimer { last: 5, timeout_secs: 30 }));
    assert_eq!(relay_buffer_size(&config), 2048);
}

#[test]
fn when_a_relay_ends() {
    let without = relay();
    assert_eq!(without.idle_timeout, None);
    let mut config = Config::default();
    config.idle_timeout_secs = 2;
    let limited = UdpRelay::new(&config, v4(10, 0, 0, 1, 1000));
    assert_eq!(limited.idle_timeout, Some(2));
    for r in [&without, &limited] {
        assert!(r.goes_on(RelayEvent::Datagram));
        assert!(r.goes_on(RelayEvent::NotDelivered));
        assert!(!r.goes_on(RelayEvent::ReceiveFailed));
    }
    assert!(without.goes_on(RelayEvent::Quiet(u128::MAX)));
    assert!(limited.goes_on(RelayEvent::Quiet(2 * SECOND as u128 - 1)));
    assert!(!limited.goes_on(RelayEvent::Quiet(2 * SECOND as u128)));
    config.idle_timeout_secs = u64::MAX;
    let longest = UdpRelay::new(&config, v4(10, 0, 0, 1, 1000));
    assert!(longest.goes_on(RelayEvent::Quiet(u64::MAX as u128)));
    assert!(!longest.goes_on(RelayEvent::Quiet(u128::MAX)));
}

#[test]
fn one_timer_for_both_directions() {
    let t = IdleTimer::new(5 * SECOND, 10);
    assert_eq!(t.deadline(), 15 * SECOND as u128);
    let mut timer = Some(t);
    assert_eq!(pump(&mut timer, 14 * SECOND, PumpEvent::Expired), PumpAction::Wait);
    assert_eq!(pump(&mut timer, 14 * SECOND, PumpEvent::Read(1)), PumpAction::Write(1));
    assert_eq!(timer.unwrap().deadline(), 24 * SECOND as u128);
    assert_eq!(pump(&mut timer, 15 * SECOND, PumpEvent::Expired), PumpAction::Wait);
    assert_eq!(pump(&mut timer, 20 * SECOND, PumpEvent::Interrupted), PumpAction::Wait);
    assert_eq!(pump(&mut timer, 24 * SECOND - 1, PumpEvent::Expired), PumpAction::Wait);
    assert_eq!(
        pump(&mut timer, 24 * SECOND, PumpEvent::Expired),
        PumpAction::Fail(Failure::IdleTimedOut)
    );
    let mut longest = IdleTimer::new(u64::MAX, u64::MAX);
    assert_eq!(longest.deadline(), u64::MAX as u128 * 1_000_000_001);
    longest.touch(3);
    assert_eq!(longest.deadline(), 3 + u64::MAX as u128 * 1_000_000_000);
}

#[test]
fn no_more_connections_than_allowed() {
    let mut gate = ConnectionGate::new(2);
    assert_eq!(listen_step(&mut gate, ServerEvent::Connection), ServerAction::Serve);
    assert_eq!(listen_step(&mut gate, ServerEvent::Connection), ServerAction::Serve);
    assert_eq!(listen_step(&mut gate, ServerEvent::Connection), ServerAction::Reject);
    assert_eq!(gate.active(), 2);
    gate.release();
    assert_eq!(gate.active(), 1);
    assert!(gate.enter());
    assert!(!gate.enter());
    let mut open = ConnectionGate::new(0);
    for _ in 0..1000 {
        assert!(open.enter());
    }
    assert_eq!(open.active(), 1000);
    open = ConnectionGate::new(1);
    open.release();
    assert_eq!(open.active(), 0);
}

#[test]
fn listening() {
    let mut gate = ConnectionGate::new(0);
    assert_eq!(listen_step(&mut gate, ServerEvent::Shutdown), ServerAction::Stop);
    assert_eq!(listen_step(&mut gate, ServerEvent::AcceptFailed), ServerAction::Pause(100));
    assert_eq!(gate.active(), 0);
}

#[test]
fn stopping() {
    assert_eq!(drain_step(0, 0), Drain::Finished);
    assert_eq!(drain_step(0, 100), Drain::Finished);
    assert_eq!(drain_step(3, 0), Drain::Wait(100));
    assert_eq!(drain_step(3, 99), Drain::Wait(100));
    assert_eq!(drain_step(3, 100), Drain::GiveUp);
}
