use aion2_tunnel::addr::PeerAddr;
use aion2_tunnel::bridge::{
    ReadEvent, Reader, Writer, WriterAction, WriterEvent, WriterPhase,
};
use aion2_tunnel::crypto::{open, seal, CryptoError, TunnelKey};
use aion2_tunnel::hex::HexError;
use aion2_tunnel::keys::{
    has_key_extension, load_keys_from_dir, read_key, KeyFile, KeyRing, KeysError,
};
use aion2_tunnel::protocol::{ConnId, TunnelMessage};
use aion2_tunnel::relay::{
    Delivery, HelloError, RelayAction, RelayState, TcpOutcome, UdpOutcome,
};

fn key(n: u8) -> TunnelKey {
    let mut bytes = [0u8; 32];
    bytes[0] = n;
    TunnelKey::from_bytes(&bytes)
}

fn ring(names: &[(&str, u8)]) -> KeyRing {
    let mut ring = KeyRing::new();
    for (name, n) in names {
        ring = ring.insert(name.to_string(), key(*n));
    }
    ring
}

fn relay() -> RelayState {
    let mut relay = RelayState::new();
    relay.load_keys(ring(&[("ann", 1), ("bob", 2)]));
    relay
}

fn peer(port: u16) -> PeerAddr {
    PeerAddr::V4 { ip: 0x0A00_0001, port }
}

fn conn() -> ConnId {
    ConnId::new([10, 200, 0, 2], 1000, [210, 242, 1, 1], 80)
}

fn ping() -> TunnelMessage {
    TunnelMessage::Ping { seq: 3, timestamp_ms: 77 }
}

#[test]
fn datagrams_teach_addresses() {
    let mut relay = relay();
    let packet = seal(&key(1), &ping()).unwrap();
    match relay.receive_udp(&packet, peer(5)) {
        UdpOutcome::Accepted { key_id, msg, moved } => {
            assert_eq!(key_id, key(1).key_id);
            assert!(matches!(msg, TunnelMessage::Ping { seq: 3, timestamp_ms: 77 }));
            assert_eq!(moved.as_deref(), Some("ann"));
        }
        _ => panic!("refused"),
    }
    assert!(matches!(relay.receive_udp(&packet, peer(5)), UdpOutcome::Accepted { moved: None, .. }));
    assert!(matches!(
        relay.receive_udp(&packet, peer(6)),
        UdpOutcome::Accepted { moved: Some(_), .. }
    ));
    match relay.send_to_user(key(1).key_id, &ping()) {
        Delivery::Udp { addr, packet } => {
            assert_eq!(addr, peer(6));
            assert!(open(&key(1), &packet).is_ok());
        }
        _ => panic!("not sent"),
    }
}

#[test]
fn strange_datagrams_are_refused() {
    let mut relay = relay();
    assert!(matches!(
        relay.receive_udp(&[0; 43], peer(1)),
        UdpOutcome::NoKeyId(CryptoError::NoKeyId)
    ));
    let unknown = seal(&key(9), &ping()).unwrap();
    assert!(matches!(
        relay.receive_udp(&unknown, peer(1)),
        UdpOutcome::UnknownKey(id) if id == key(9).key_id
    ));
    let mut broken = seal(&key(2), &ping()).unwrap();
    let last = broken.len() - 1;
    broken[last] ^= 1;
    assert!(matches!(
        relay.receive_udp(&broken, peer(1)),
        UdpOutcome::Rejected { user, error: CryptoError::DecryptionFailed } if user == "bob"
    ));
    assert!(matches!(relay.send_to_user(key(2).key_id, &ping()), Delivery::NoAddress));
}

#[test]
fn streams_go_before_datagrams() {
    let mut relay = relay();
    let packet = seal(&key(1), &ping()).unwrap();
    let (id, name, msg) = match relay.tcp_hello(&packet, peer(8), 42) {
        Ok(hello) => hello,
        Err(_) => panic!("refused"),
    };
    assert_eq!(id, key(1).key_id);
    assert_eq!(name, "ann");
    assert!(matches!(msg, TunnelMessage::Ping { .. }));
    assert!(matches!(relay.send_to_user(id, &ping()), Delivery::Tcp { channel: 42, .. }));
    assert!(matches!(
        relay.tcp_receive(&packet),
        TcpOutcome::Accepted { key_id, .. } if key_id == id
    ));
    relay.tcp_close(id);
    assert!(matches!(
        relay.send_to_user(id, &ping()),
        Delivery::Udp { addr, .. } if addr == peer(8)
    ));
    relay.tcp_close([9; 4]);
    assert!(matches!(relay.send_to_user([9; 4], &ping()), Delivery::NoUser));
}

#[test]
fn strange_streams_are_refused() {
    let mut relay = relay();
    assert!(matches!(
        relay.tcp_hello(&[0; 10], peer(1), 1),
        Err(HelloError::Unreadable(CryptoError::NoKeyId))
    ));
    let unknown = seal(&key(9), &ping()).unwrap();
    assert!(matches!(relay.tcp_hello(&unknown, peer(1), 1), Err(HelloError::UnknownKey(_))));
    assert_eq!(HelloError::UnknownKey([1, 2, 0xab, 0]).to_text(), "unknown key_id 0102ab00");
    assert_eq!(HelloError::Unreadable(CryptoError::TooShort).to_text(), "packet too short");
    assert!(matches!(relay.tcp_receive(&unknown), TcpOutcome::Skipped));
    assert!(matches!(relay.tcp_receive(&[0; 10]), TcpOutcome::Skipped));
    let mut broken = seal(&key(2), &ping()).unwrap();
    broken[30] ^= 1;
    assert!(matches!(
        relay.tcp_hello(&broken, peer(1), 1),
        Err(HelloError::Unreadable(CryptoError::DecryptionFailed))
    ));
    assert!(matches!(relay.tcp_receive(&broken), TcpOutcome::Rejected(CryptoError::DecryptionFailed)));
    assert!(matches!(relay.send_to_user(key(2).key_id, &ping()), Delivery::NoAddress));
}

#[test]
fn messages_become_actions() {
    let mut relay = relay();
    let id = key(1).key_id;
    assert!(matches!(
        relay.handle_message(TunnelMessage::Connect(conn()), id),
        RelayAction::Dial(c) if c == conn()
    ));
    let data = TunnelMessage::Data { conn: conn(), payload: vec![1, 2] };
    assert!(matches!(relay.handle_message(data.clone(), id), RelayAction::Drop(_)));
    assert!(matches!(
        relay.handle_message(TunnelMessage::Shutdown(conn()), id),
        RelayAction::Drop(_)
    ));
    relay.register(conn(), 7);
    assert!(matches!(
        relay.handle_message(data, id),
        RelayAction::Forward { channel: 7, payload } if payload == vec![1, 2]
    ));
    assert!(matches!(
        relay.handle_message(TunnelMessage::Shutdown(conn()), id),
        RelayAction::HalfClose { channel: 7 }
    ));
    assert!(matches!(
        relay.handle_message(TunnelMessage::Reset(conn()), id),
        RelayAction::Forget { had: Some(7), .. }
    ));
    assert!(matches!(
        relay.handle_message(TunnelMessage::Reset(conn()), id),
        RelayAction::Forget { had: None, .. }
    ));
    assert!(matches!(
        relay.handle_message(TunnelMessage::Connected(conn()), id),
        RelayAction::Unexpected
    ));
    assert_eq!(relay.register(conn(), 8), None);
    assert_eq!(relay.register(conn(), 9), Some(8));
    assert_eq!(relay.unregister(conn()), Some(9));
    assert_eq!(relay.unregister(conn()), None);
}

#[test]
fn pings_are_echoed() {
    let mut relay = relay();
    let packet = seal(&key(1), &ping()).unwrap();
    relay.receive_udp(&packet, peer(5));
    match relay.handle_message(ping(), key(1).key_id) {
        RelayAction::Reply(Delivery::Udp { packet, .. }) => assert!(matches!(
            open(&key(1), &packet).unwrap(),
            TunnelMessage::Pong { seq: 3, client_timestamp_ms: 77 }
        )),
        _ => panic!("no answer"),
    }
}

#[test]
fn users_hear_of_their_connections() {
    let mut relay = relay();
    let id = key(1).key_id;
    relay.receive_udp(&seal(&key(1), &ping()).unwrap(), peer(5));
    let packet = match relay.connect_reply(id, conn(), Ok(())) {
        Delivery::Udp { packet, .. } => packet,
        _ => panic!("not sent"),
    };
    assert!(matches!(open(&key(1), &packet).unwrap(), TunnelMessage::Connected(c) if c == conn()));
    let packet = match relay.connect_reply(id, conn(), Err("refused".into())) {
        Delivery::Udp { packet, .. } => packet,
        _ => panic!("not sent"),
    };
    assert!(matches!(
        open(&key(1), &packet).unwrap(),
        TunnelMessage::ConnectFailed { reason, .. } if reason == "refused"
    ));
}

#[test]
fn reloading_keeps_addresses() {
    let mut relay = relay();
    relay.receive_udp(&seal(&key(1), &ping()).unwrap(), peer(5));
    assert!(relay.tcp_hello(&seal(&key(2), &ping()).unwrap(), peer(6), 4).is_ok());
    relay.load_keys(ring(&[("anne", 1), ("bob", 2), ("cid", 3)]));
    assert!(matches!(
        relay.send_to_user(key(1).key_id, &ping()),
        Delivery::Udp { addr, .. } if addr == peer(5)
    ));
    assert!(matches!(relay.send_to_user(key(2).key_id, &ping()), Delivery::Tcp { channel: 4, .. }));
    assert!(matches!(relay.send_to_user(key(3).key_id, &ping()), Delivery::NoAddress));
    assert!(matches!(
        relay.receive_udp(&seal(&key(1), &ping()).unwrap(), peer(9)),
        UdpOutcome::Accepted { moved: Some(name), .. } if name == "anne"
    ));
    relay.load_keys(ring(&[("bob", 2)]));
    assert!(matches!(relay.send_to_user(key(1).key_id, &ping()), Delivery::NoUser));
    relay.load_keys(ring(&[("ann", 1)]));
    assert!(matches!(relay.send_to_user(key(1).key_id, &ping()), Delivery::NoAddress));
}

fn file(name: &str, extension: Option<&str>, content: Result<&str, &str>) -> KeyFile {
    KeyFile {
        path: format!("/keys/{name}"),
        extension: extension.map(|e| e.to_string()),
        stem: Some(name.to_string()),
        content: content.map(|c| c.to_string()).map_err(|e| e.to_string()),
    }
}

const HEX: &str = "0100000000000000000000000000000000000000000000000000000000000000";

#[test]
fn keys_are_loaded_from_files() {
    let spaced = format!(" {HEX}\n");
    let mut nameless = file("x", Some("key"), Ok(HEX));
    nameless.stem = None;
    let files = vec![
        file("ann", Some("key"), Ok(&spaced)),
        file("notes", Some("txt"), Ok("no key")),
        file("readme", None, Err("unreadable")),
        nameless,
        file("ann", Some("key"), Ok(&HEX.replace("01", "02"))),
    ];
    let ring = match load_keys_from_dir("/keys", true, &files) {
        Ok(ring) => ring,
        Err(e) => panic!("{}", e.to_text()),
    };
    assert_eq!(ring.len(), 2);
    assert!(!ring.is_empty());
    let mut entries = ring.into_entries();
    entries.sort_by(|a, b| a.0.cmp(&b.0));
    assert_eq!(entries[0].0, "ann");
    assert_eq!(entries[0].1.key_id, key(2).key_id);
    assert_eq!(entries[1].0, "unknown");
    assert_eq!(entries[1].1.key_id, key(1).key_id);
}

fn error(dir: bool, files: Vec<KeyFile>) -> String {
    match load_keys_from_dir("/keys", dir, &files) {
        Ok(_) => panic!("keys"),
        Err(e) => e.to_text(),
    }
}

#[test]
fn missing_and_broken_keys_are_told() {
    assert_eq!(error(false, vec![]), "/keys is not a directory");
    assert_eq!(error(true, vec![]), "no .key files found in /keys");
    assert_eq!(
        error(true, vec![file("a", Some("pem"), Ok(HEX))]),
        "no .key files found in /keys"
    );
    let files = vec![
        file("a", Some("key"), Ok(HEX)),
        file("b", Some("key"), Err("denied")),
        file("c", Some("key"), Ok("short")),
    ];
    assert_eq!(error(true, files), "failed to read /keys/b: denied");
    let files = vec![file("c", Some("key"), Ok("short")), file("b", Some("key"), Err("denied"))];
    assert!(matches!(
        load_keys_from_dir("/keys", true, &files),
        Err(KeysError::Invalid { error: HexError::WrongLength { len: 5 }, .. })
    ));
    assert_eq!(
        error(true, files),
        "invalid key in /keys/c: key must be 64 hex characters (32 bytes), got 5"
    );
}

#[test]
fn only_digits_are_keys() {
    let mut split = HEX.to_string();
    split.replace_range(1..3, "é");
    assert_eq!(read_key(&split).err().unwrap(), HexError::InvalidDigit { position: 0 });
    assert_eq!(
        error(true, vec![file("a", Some("key"), Ok(&split))]),
        "invalid key in /keys/a: invalid hex at position 0: invalid digit found in string"
    );
    let signed = HEX.replace("01", "+1");
    assert_eq!(read_key(&signed).err().unwrap(), HexError::InvalidDigit { position: 0 });
    assert!(has_key_extension(&Some("key".to_string())));
    assert!(!has_key_extension(&Some("KEY".to_string())));
    assert!(!has_key_extension(&None));
    assert_eq!(read_key(HEX).ok().unwrap().key_id, key(1).key_id);
}

#[test]
fn writers_drain_before_they_finish() {
    let mut writer = Writer::new();
    assert!(matches!(
        writer.step(WriterEvent::Payload(vec![1, 2])),
        WriterAction::Write(p) if p == vec![1, 2]
    ));
    assert!(matches!(writer.step(WriterEvent::ShutdownRequested), WriterAction::Drain));
    assert_eq!(writer.phase, WriterPhase::Draining);
    assert!(matches!(writer.step(WriterEvent::Payload(vec![3])), WriterAction::Write(_)));
    assert!(matches!(writer.step(WriterEvent::QueueEmpty), WriterAction::Finish));
    assert_eq!(writer.phase, WriterPhase::Done);
    assert_eq!(writer.bytes_written, 3);
    assert_eq!(writer.write_msgs, 2);
}

#[test]
fn writers_stop_when_they_must() {
    let mut closed = Writer::new();
    assert!(matches!(closed.step(WriterEvent::QueueClosed), WriterAction::Stop));
    let mut failed = Writer::new();
    failed.step(WriterEvent::Payload(vec![1]));
    assert!(matches!(failed.step(WriterEvent::WriteFailed), WriterAction::Stop));
    let mut draining = Writer::new();
    draining.step(WriterEvent::ShutdownRequested);
    assert!(matches!(draining.step(WriterEvent::WriteFailed), WriterAction::Finish));
}

fn told(delivery: Delivery) -> TunnelMessage {
    match delivery {
        Delivery::Udp { packet, .. } => open(&key(1), &packet).unwrap(),
        _ => panic!("not sent"),
    }
}

#[test]
fn readers_pass_on_what_they_read() {
    let mut relay = relay();
    let id = key(1).key_id;
    relay.receive_udp(&seal(&key(1), &ping()).unwrap(), peer(5));
    let mut reader = Reader::new();
    assert_eq!(reader.last_bytes(), "");
    let (d, on) = reader.step(&relay, id, conn(), ReadEvent::Read(vec![0x0a, 0xff]));
    assert!(on);
    assert!(matches!(told(d), TunnelMessage::Data { payload, .. } if payload == vec![0x0a, 0xff]));
    assert_eq!(reader.last_bytes(), "0a ff");
    let (_, on) = reader.step(&relay, id, conn(), ReadEvent::Read(vec![1; 100]));
    assert!(on);
    assert_eq!(reader.bytes_read, 102);
    assert_eq!(reader.read_msgs, 2);
    assert_eq!(reader.last_bytes(), vec!["01"; 64].join(" "));
    let (d, on) = reader.step(&relay, id, conn(), ReadEvent::Read(vec![]));
    assert!(!on);
    assert!(matches!(told(d), TunnelMessage::Shutdown(c) if c == conn()));
    assert_eq!(reader.read_msgs, 2);
    let (d, on) = reader.step(&relay, id, conn(), ReadEvent::Failed);
    assert!(!on);
    assert!(matches!(told(d), TunnelMessage::Reset(c) if c == conn()));
}

#[test]
fn reads_make_up_what_is_sent() {
    let mut relay = relay();
    let id = key(1).key_id;
    relay.receive_udp(&seal(&key(1), &ping()).unwrap(), peer(5));
    let mut reader = Reader::new();
    let mut sent = Vec::new();
    for part in [&b"one"[..], b"two", b"three"] {
        let (d, on) = reader.step(&relay, id, conn(), ReadEvent::Read(part.to_vec()));
        assert!(on);
        match told(d) {
            TunnelMessage::Data { payload, .. } => sent.extend_from_slice(&payload),
            _ => panic!("no data"),
        }
    }
    assert_eq!(sent, b"onetwothree");
    assert_eq!(reader.bytes_read, sent.len() as u64);
}
