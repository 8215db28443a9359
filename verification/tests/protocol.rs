use aion2_tunnel::protocol::{decode_message, encode_message, CodecError, ConnId, TunnelMessage};

#[test]
fn roundtrip_connect() {
    let conn = ConnId::new([192, 168, 1, 100], 12345, [210, 242, 123, 135], 13328);
    let msg = TunnelMessage::Connect(conn);
    let encoded = encode_message(&msg).unwrap();
    let decoded = decode_message(&encoded).unwrap();
    match decoded {
        TunnelMessage::Connect(c) => assert_eq!(c, conn),
        _ => panic!("wrong variant"),
    }
}

#[test]
fn roundtrip_data() {
    let conn = ConnId::new([10, 0, 0, 1], 5000, [210, 242, 186, 61], 27500);
    let payload = vec![0xDE, 0xAD, 0xBE, 0xEF];
    let msg = TunnelMessage::Data { conn, payload: payload.clone() };
    let encoded = encode_message(&msg).unwrap();
    let decoded = decode_message(&encoded).unwrap();
    match decoded {
        TunnelMessage::Data { conn: c, payload: p } => {
            assert_eq!(c, conn);
            assert_eq!(p, payload);
        }
        _ => panic!("wrong variant"),
    }
}

fn conn() -> ConnId {
    ConnId::new([192, 168, 1, 100], 0x1234, [210, 242, 123, 135], 0xABCD)
}

const WIRE: [u8; 12] = [192, 168, 1, 100, 0x34, 0x12, 210, 242, 123, 135, 0xCD, 0xAB];

#[test]
fn connections_know_their_ends() {
    assert_eq!(conn().src_addr(), [192, 168, 1, 100]);
    assert_eq!(conn().dst_addr(), [210, 242, 123, 135]);
    assert_eq!(conn().to_text(), "192.168.1.100:4660 → 210.242.123.135:43981");
}

#[test]
fn messages_have_their_wire_form() {
    let cases: Vec<(u8, TunnelMessage)> = vec![
        (0, TunnelMessage::Connect(conn())),
        (1, TunnelMessage::Connected(conn())),
        (4, TunnelMessage::Shutdown(conn())),
        (5, TunnelMessage::Reset(conn())),
    ];
    for (tag, msg) in cases {
        let mut expected = vec![tag, 0, 0, 0];
        expected.extend_from_slice(&WIRE);
        assert_eq!(encode_message(&msg).unwrap(), expected);
    }
    let mut failed = vec![2, 0, 0, 0];
    failed.extend_from_slice(&WIRE);
    failed.extend_from_slice(&[3, 0, 0, 0, 0, 0, 0, 0, b'n', 0xC3, 0xA9]);
    assert_eq!(
        encode_message(&TunnelMessage::ConnectFailed { conn: conn(), reason: "né".into() }).unwrap(),
        failed
    );
    let mut data = vec![3, 0, 0, 0];
    data.extend_from_slice(&WIRE);
    data.extend_from_slice(&[2, 0, 0, 0, 0, 0, 0, 0, 7, 8]);
    assert_eq!(
        encode_message(&TunnelMessage::Data { conn: conn(), payload: vec![7, 8] }).unwrap(),
        data
    );
    assert_eq!(
        encode_message(&TunnelMessage::Ping { seq: 1, timestamp_ms: 0x0203 }).unwrap(),
        vec![6, 0, 0, 0, 1, 0, 0, 0, 0, 0, 0, 0, 3, 2, 0, 0, 0, 0, 0, 0]
    );
    assert_eq!(
        encode_message(&TunnelMessage::Pong { seq: 256, client_timestamp_ms: 1 }).unwrap(),
        vec![7, 0, 0, 0, 0, 1, 0, 0, 0, 0, 0, 0, 1, 0, 0, 0, 0, 0, 0, 0]
    );
}

#[test]
fn every_message_comes_back() {
    let messages = vec![
        TunnelMessage::Connect(conn()),
        TunnelMessage::Connected(conn()),
        TunnelMessage::ConnectFailed { conn: conn(), reason: "refusé".into() },
        TunnelMessage::Data { conn: conn(), payload: vec![] },
        TunnelMessage::Shutdown(conn()),
        TunnelMessage::Reset(conn()),
        TunnelMessage::Ping { seq: u64::MAX, timestamp_ms: 7 },
        TunnelMessage::Pong { seq: 3, client_timestamp_ms: u64::MAX },
    ];
    for msg in messages {
        let mut bytes = encode_message(&msg).unwrap();
        assert_eq!(format!("{:?}", decode_message(&bytes).unwrap()), format!("{msg:?}"));
        // What follows a message does not matter.
        bytes.extend_from_slice(&[1, 2, 3]);
        assert_eq!(format!("{:?}", decode_message(&bytes).unwrap()), format!("{msg:?}"));
        // A message that is cut off is none.
        bytes.truncate(bytes.len() - 4);
        assert!(matches!(decode_message(&bytes).unwrap_err(), CodecError::Decode(_)));
    }
}

#[test]
fn other_bytes_are_no_message() {
    assert!(decode_message(&[]).is_err());
    assert!(decode_message(&[0, 0, 0]).is_err());
    assert!(decode_message(&[8; 64]).is_err());
    let mut failed = vec![2, 0, 0, 0];
    failed.extend_from_slice(&WIRE);
    failed.extend_from_slice(&[1, 0, 0, 0, 0, 0, 0, 0, 0xFF]);
    assert!(decode_message(&failed).is_err());
    let mut data = vec![3, 0, 0, 0];
    data.extend_from_slice(&WIRE);
    data.extend_from_slice(&[0xFF; 8]);
    assert!(decode_message(&data).is_err());
}

fn reason(data: &[u8]) -> String {
    match decode_message(data).unwrap_err() {
        CodecError::Decode(reason) => reason,
        CodecError::Encode => panic!("wrong variant"),
    }
}

#[test]
fn the_reason_is_told() {
    assert_eq!(
        reason(&[9, 0, 0, 0]),
        "invalid value: integer `9`, expected variant index 0 <= i < 8"
    );
    assert_eq!(
        reason(&[0xFF; 4]),
        "invalid value: integer `4294967295`, expected variant index 0 <= i < 8"
    );
    // The same as for any other value that ends too early.
    let early = bincode::deserialize::<u64>(&[0; 7]).unwrap_err().to_string();
    assert_eq!(reason(&[0; 3]), early);
    for tag in [0u8, 1, 2, 3, 4, 5, 6, 7] {
        assert_eq!(reason(&[tag, 0, 0, 0, 1]), early);
    }
    let mut data = vec![3, 0, 0, 0];
    data.extend_from_slice(&WIRE);
    data.extend_from_slice(&[2, 0, 0, 0, 0, 0, 0, 0, 7]);
    assert_eq!(reason(&data), early);
    let mut failed = vec![2, 0, 0, 0];
    failed.extend_from_slice(&WIRE);
    failed.extend_from_slice(&[1, 0, 0, 0, 0, 0, 0, 0, 0xFF]);
    let text = [1, 0, 0, 0, 0, 0, 0, 0, 0xFF];
    assert_eq!(reason(&failed), bincode::deserialize::<String>(&text).unwrap_err().to_string());
    failed[16] = 2;
    let text = [2, 0, 0, 0, 0, 0, 0, 0, 0xFF];
    assert_eq!(reason(&failed), bincode::deserialize::<String>(&text).unwrap_err().to_string());
}
