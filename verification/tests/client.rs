use aion2_tunnel::addr::PeerAddr;
use aion2_tunnel::crypto::{open, seal, CryptoError, TunnelKey};
use aion2_tunnel::probe::{Probe, ProbeError, ProbeEvent, ProbePhase};
use aion2_tunnel::protocol::{ConnId, TunnelMessage, MAX_PAYLOAD_SIZE};
use aion2_tunnel::tunnel::{
    drain_rx, is_connected, is_shutdown, next_ping, open_connection, send_data, send_to_relay,
    RelayEvent, TunnelState,
};

fn key() -> TunnelKey {
    TunnelKey::from_bytes(&[0x11; 32])
}

fn connected() -> (TunnelState, ConnId) {
    let mut state = TunnelState::new(key());
    let (conn, _) = open_connection(&mut state, [10, 200, 0, 2], 1000, [210, 242, 1, 1], 80).unwrap();
    (state, conn)
}

fn receive(state: &mut TunnelState, msg: TunnelMessage, now_ms: u64) -> RelayEvent {
    let packet = seal(&key(), &msg).unwrap();
    state.receive(&packet, now_ms).unwrap()
}

#[test]
fn opening_asks_the_relay() {
    let mut state = TunnelState::new(key());
    let (conn, packet) =
        open_connection(&mut state, [10, 200, 0, 2], 1000, [210, 242, 1, 1], 80).unwrap();
    assert_eq!(conn, ConnId::new([10, 200, 0, 2], 1000, [210, 242, 1, 1], 80));
    assert!(matches!(open(&key(), &packet).unwrap(), TunnelMessage::Connect(c) if c == conn));
    assert!(!is_connected(&state, &conn));
    assert!(!is_shutdown(&state, &conn));
    assert!(drain_rx(&mut state, &conn).is_empty());
}

#[test]
fn connections_follow_the_relay() {
    let (mut state, conn) = connected();
    assert!(matches!(
        receive(&mut state, TunnelMessage::Connected(conn), 0),
        RelayEvent::Connected { known: true, .. }
    ));
    assert!(is_connected(&state, &conn));
    for part in [&b"ab"[..], b"", b"cde"] {
        let msg = TunnelMessage::Data { conn, payload: part.to_vec() };
        assert!(matches!(receive(&mut state, msg, 0), RelayEvent::Data { known: true, .. }));
    }
    assert_eq!(drain_rx(&mut state, &conn), b"abcde");
    assert!(drain_rx(&mut state, &conn).is_empty());
    assert!(is_connected(&state, &conn));
    assert!(matches!(
        receive(&mut state, TunnelMessage::Shutdown(conn), 0),
        RelayEvent::Shutdown { known: true, .. }
    ));
    assert!(is_shutdown(&state, &conn));
    assert!(matches!(receive(&mut state, TunnelMessage::Reset(conn), 0), RelayEvent::Reset(c) if c == conn));
    assert!(!is_connected(&state, &conn));
    assert!(!is_shutdown(&state, &conn));
}

#[test]
fn failed_connections_are_forgotten() {
    let (mut state, conn) = connected();
    let msg = TunnelMessage::ConnectFailed { conn, reason: "refused".into() };
    assert!(matches!(
        receive(&mut state, msg, 0),
        RelayEvent::Failed { reason, .. } if reason == "refused"
    ));
    assert!(matches!(
        receive(&mut state, TunnelMessage::Connected(conn), 0),
        RelayEvent::Connected { known: false, .. }
    ));
    assert!(!is_connected(&state, &conn));
}

#[test]
fn connections_are_told_apart_by_every_part() {
    let mut state = TunnelState::new(key());
    let ends: [([u8; 4], u16, [u8; 4], u16); 5] = [
        ([1, 0, 0, 0], 1, [2, 0, 0, 0], 2),
        ([1, 0, 0, 1], 1, [2, 0, 0, 0], 2),
        ([1, 0, 0, 0], 3, [2, 0, 0, 0], 2),
        ([1, 0, 0, 0], 1, [2, 0, 0, 1], 2),
        ([1, 0, 0, 0], 1, [2, 0, 0, 0], 3),
    ];
    for (i, e) in ends.iter().enumerate() {
        let (conn, _) = open_connection(&mut state, e.0, e.1, e.2, e.3).unwrap();
        let msg = TunnelMessage::Data { conn, payload: vec![i as u8] };
        receive(&mut state, msg, 0);
    }
    for (i, e) in ends.iter().enumerate() {
        assert_eq!(drain_rx(&mut state, &ConnId::new(e.0, e.1, e.2, e.3)), vec![i as u8]);
    }
}

#[test]
fn opening_again_starts_afresh() {
    let (mut state, conn) = connected();
    receive(&mut state, TunnelMessage::Connected(conn), 0);
    receive(&mut state, TunnelMessage::Data { conn, payload: vec![1] }, 0);
    open_connection(&mut state, [10, 200, 0, 2], 1000, [210, 242, 1, 1], 80).unwrap();
    assert!(!is_connected(&state, &conn));
    assert!(drain_rx(&mut state, &conn).is_empty());
}

#[test]
fn answers_measure_the_round_trip() {
    let mut state = TunnelState::new(key());
    let pong = TunnelMessage::Pong { seq: 4, client_timestamp_ms: 1_000 };
    assert!(matches!(
        receive(&mut state, pong.clone(), 1_025),
        RelayEvent::Pong { seq: 4, rtt_ms: 25 }
    ));
    assert_eq!(state.last_rtt_ms, 25);
    receive(&mut state, pong, 999);
    assert_eq!(state.last_rtt_ms, 0);
}

#[test]
fn what_clients_send_is_unexpected() {
    let (mut state, conn) = connected();
    assert!(matches!(receive(&mut state, TunnelMessage::Connect(conn), 0), RelayEvent::Unexpected));
    let ping = TunnelMessage::Ping { seq: 0, timestamp_ms: 0 };
    assert!(matches!(receive(&mut state, ping, 0), RelayEvent::Unexpected));
}

#[test]
fn foreign_packets_change_nothing() {
    let (mut state, conn) = connected();
    let foreign = TunnelKey::from_bytes(&[0x22; 32]);
    let packet = seal(&foreign, &TunnelMessage::Connected(conn)).unwrap();
    assert!(matches!(state.receive(&packet, 0), Err(CryptoError::DecryptionFailed)));
    assert!(matches!(state.receive(&packet[..20], 0), Err(CryptoError::TooShort)));
    assert!(!is_connected(&state, &conn));
}

#[test]
fn pings_are_numbered() {
    let mut state = TunnelState::new(key());
    for n in 0..3 {
        let packet = next_ping(&mut state, 100 + n).unwrap();
        match open(&key(), &packet).unwrap() {
            TunnelMessage::Ping { seq, timestamp_ms } => {
                assert_eq!(seq, n);
                assert_eq!(timestamp_ms, 100 + n);
            }
            _ => panic!("no ping"),
        }
    }
    state.ping_seq = u64::MAX;
    next_ping(&mut state, 0).unwrap();
    assert_eq!(state.ping_seq, 0);
}

#[test]
fn payloads_are_cut_and_arrive_whole() {
    for len in [0, 1, MAX_PAYLOAD_SIZE, MAX_PAYLOAD_SIZE + 1, 3 * MAX_PAYLOAD_SIZE] {
        let (mut state, conn) = connected();
        let payload: Vec<u8> = (0..len).map(|i| (i % 251) as u8).collect();
        let packets = send_data(&state, conn, &payload).unwrap();
        assert_eq!(packets.len(), (len + MAX_PAYLOAD_SIZE - 1) / MAX_PAYLOAD_SIZE);
        for packet in &packets {
            match open(&key(), packet).unwrap() {
                TunnelMessage::Data { payload, .. } => {
                    assert!(!payload.is_empty() && payload.len() <= MAX_PAYLOAD_SIZE);
                }
                _ => panic!("no data"),
            }
            state.receive(packet, 0).unwrap();
        }
        assert_eq!(drain_rx(&mut state, &conn), payload);
    }
}

#[test]
fn any_message_can_be_sent() {
    let (state, conn) = connected();
    let packet = send_to_relay(&state, &TunnelMessage::Reset(conn)).unwrap();
    assert!(matches!(open(&key(), &packet).unwrap(), TunnelMessage::Reset(c) if c == conn));
}

#[test]
fn a_probe_talks_to_a_server() {
    let mut state = TunnelState::new(key());
    let dst = PeerAddr::V4 { ip: 0xD2F2_0102, port: 13328 };
    let (mut probe, packet) = Probe::start(&mut state, dst).unwrap();
    let conn = ConnId::new([10, 200, 0, 2], 12345, [210, 242, 1, 2], 13328);
    assert_eq!(probe.conn, conn);
    assert!(matches!(open(&key(), &packet).unwrap(), TunnelMessage::Connect(c) if c == conn));

    probe.step(&mut state, ProbeEvent::Notified).unwrap();
    assert_eq!(probe.phase, ProbePhase::Connecting);
    receive(&mut state, TunnelMessage::Connected(conn), 0);
    probe.step(&mut state, ProbeEvent::Notified).unwrap();
    assert_eq!(probe.phase, ProbePhase::Streaming);

    let typed = probe.step(&mut state, ProbeEvent::Input(vec![7; 1300])).unwrap();
    assert_eq!(typed.packets.len(), 2);
    assert!(typed.output.is_empty());

    receive(&mut state, TunnelMessage::Data { conn, payload: vec![1, 2] }, 0);
    let shown = probe.step(&mut state, ProbeEvent::Notified).unwrap();
    assert_eq!(shown.output, vec![1, 2]);
    assert!(shown.packets.is_empty());
    assert_eq!(probe.phase, ProbePhase::Streaming);

    receive(&mut state, TunnelMessage::Data { conn, payload: vec![3] }, 0);
    receive(&mut state, TunnelMessage::Shutdown(conn), 0);
    let last = probe.step(&mut state, ProbeEvent::Notified).unwrap();
    assert_eq!(last.output, vec![3]);
    assert_eq!(probe.phase, ProbePhase::Done);
}

#[test]
fn the_end_of_the_input_ends_a_probe() {
    let mut state = TunnelState::new(key());
    let dst = PeerAddr::V4 { ip: 0xD2F2_0102, port: 1 };
    let (mut probe, _) = Probe::start(&mut state, dst).unwrap();
    receive(&mut state, TunnelMessage::Connected(probe.conn), 0);
    probe.step(&mut state, ProbeEvent::Notified).unwrap();
    let end = probe.step(&mut state, ProbeEvent::Input(vec![])).unwrap();
    assert_eq!(end.packets.len(), 1);
    assert!(matches!(open(&key(), &end.packets[0]).unwrap(), TunnelMessage::Shutdown(c) if c == probe.conn));
    assert_eq!(probe.phase, ProbePhase::Done);

    let (mut other, _) = Probe::start(&mut state, dst).unwrap();
    receive(&mut state, TunnelMessage::Connected(other.conn), 0);
    other.step(&mut state, ProbeEvent::Notified).unwrap();
    assert!(other.step(&mut state, ProbeEvent::InputFailed).unwrap().packets.is_empty());
    assert_eq!(other.phase, ProbePhase::Done);
}

#[test]
fn probes_go_to_ipv4_only() {
    let mut state = TunnelState::new(key());
    let dst = PeerAddr::V6 { ip6: 1, port: 1, flowinfo: 0, scope_id: 0 };
    assert!(matches!(Probe::start(&mut state, dst), Err(ProbeError::NotIpv4)));
}
