use aion2_tunnel::cipher::{returns_for, NONCE_SIZE, TAG_SIZE};
use aion2_tunnel::crypto::{
    compute_key_id, open, peek_key_id, seal, CryptoError, TunnelKey, KEY_ID_SIZE, PACKET_OVERHEAD,
};
use aion2_tunnel::protocol::{
    CodecError, ConnId, TunnelMessage, MAX_PACKET_SIZE, MAX_PAYLOAD_SIZE,
};
use chacha20poly1305::aead::{Aead, KeyInit};
use chacha20poly1305::{XChaCha20Poly1305, XNonce};

#[test]
fn encrypt_decrypt_roundtrip() {
    let (_, key) = TunnelKey::generate();
    let plaintext = b"hello game server";
    let encrypted = key.encrypt(plaintext).unwrap();
    let decrypted = key.decrypt(&encrypted).unwrap();
    assert_eq!(decrypted, plaintext);
}

#[test]
fn seal_open_roundtrip() {
    let (_, key) = TunnelKey::generate();
    let conn = ConnId::new([10, 0, 0, 1], 5000, [210, 242, 123, 135], 13328);
    let msg = TunnelMessage::Data { conn, payload: vec![1, 2, 3, 4, 5] };
    let packet = seal(&key, &msg).unwrap();
    let decoded = open(&key, &packet).unwrap();
    match decoded {
        TunnelMessage::Data { conn: c, payload } => {
            assert_eq!(c, conn);
            assert_eq!(payload, vec![1, 2, 3, 4, 5]);
        }
        _ => panic!("wrong variant"),
    }
}

#[test]
fn tampered_packet_fails() {
    let (_, key) = TunnelKey::generate();
    let mut packet = key.encrypt(b"secret data").unwrap();
    let last = packet.len() - 1;
    packet[last] ^= 0xFF;
    assert!(key.decrypt(&packet).is_err());
}

#[test]
fn wrong_key_fails() {
    let (_, key1) = TunnelKey::generate();
    let (_, key2) = TunnelKey::generate();
    let packet = key1.encrypt(b"secret").unwrap();
    assert!(key2.decrypt(&packet).is_err());
}

#[test]
fn encryption_under_a_nonce_is_the_cipher() {
    let secret = [0x42u8; 32];
    let nonce = [7u8; 24];
    let mut out = vec![9, 9];
    TunnelKey::from_bytes(&secret).encrypt_with_nonce(&nonce, b"attack at dawn", &mut out).unwrap();
    let expected = XChaCha20Poly1305::new(&secret.into())
        .encrypt(XNonce::from_slice(&nonce), &b"attack at dawn"[..])
        .unwrap();
    assert_eq!(out[..2], [9, 9]);
    assert_eq!(out[2..26], nonce);
    assert_eq!(out[26..], expected[..]);
    assert_ne!(out[26..40], b"attack at dawn"[..]);
}

#[test]
fn generated_keys_are_made_of_their_bytes() {
    let (bytes, key) = TunnelKey::generate();
    let again = TunnelKey::from_bytes(&bytes);
    assert_eq!(key.key_id, again.key_id);
    assert_ne!(bytes, [0u8; 32]);
    let packet = key.encrypt(b"x").unwrap();
    assert_eq!(again.decrypt(&packet).unwrap(), b"x");
}

#[test]
fn nonces_differ_from_packet_to_packet() {
    let key = TunnelKey::from_bytes(&[1u8; 32]);
    let a = key.encrypt(b"same").unwrap();
    let b = key.encrypt(b"same").unwrap();
    assert_ne!(a[..NONCE_SIZE], b[..NONCE_SIZE]);
}

#[test]
fn key_ids_fold_and_mix_the_key() {
    assert_eq!(compute_key_id(&[0u8; 32]), [0, 0, 0, 0]);
    let mut key = [0u8; 32];
    key[4] = 1;
    assert_eq!(compute_key_id(&key), [0xb9, 0x79, 0x37, 0x9e]);
    key[8] = 1;
    assert_eq!(compute_key_id(&key), [0, 0, 0, 0]);
    key[31] = 1;
    assert_eq!(compute_key_id(&key), [0, 0, 0, 0xb9]);
    assert_eq!(TunnelKey::from_bytes(&key).key_id, [0, 0, 0, 0xb9]);
}

#[test]
fn sealed_packets_begin_with_the_key_id() {
    let key = TunnelKey::from_bytes(&[3u8; 32]);
    let packet = seal(&key, &TunnelMessage::Ping { seq: 1, timestamp_ms: 2 }).unwrap();
    assert_eq!(packet.len(), 20 + PACKET_OVERHEAD);
    assert_eq!(peek_key_id(&packet).unwrap(), key.key_id);
    assert_eq!(PACKET_OVERHEAD, KEY_ID_SIZE + NONCE_SIZE + TAG_SIZE);
}

#[test]
fn a_packet_with_another_tag_does_not_open() {
    let key = TunnelKey::from_bytes(&[5u8; 32]);
    let conn = ConnId::new([1, 2, 3, 4], 5, [6, 7, 8, 9], 10);
    let packet = seal(&key, &TunnelMessage::Connect(conn)).unwrap();
    for i in packet.len() - TAG_SIZE..packet.len() {
        let mut other = packet.clone();
        other[i] ^= 1;
        assert_eq!(open(&key, &other).unwrap_err(), CryptoError::DecryptionFailed);
    }
}

#[test]
fn the_key_id_is_not_authenticated() {
    let key = TunnelKey::from_bytes(&[5u8; 32]);
    let mut packet = seal(&key, &TunnelMessage::Pong { seq: 4, client_timestamp_ms: 5 }).unwrap();
    packet[0] ^= 0xFF;
    assert!(matches!(
        open(&key, &packet).unwrap(),
        TunnelMessage::Pong { seq: 4, client_timestamp_ms: 5 }
    ));
}

#[test]
fn full_payloads_fit_a_packet() {
    let key = TunnelKey::from_bytes(&[6u8; 32]);
    let conn = ConnId::new([1, 2, 3, 4], 5, [6, 7, 8, 9], 10);
    let msg = TunnelMessage::Data { conn, payload: vec![0xAA; MAX_PAYLOAD_SIZE] };
    let packet = seal(&key, &msg).unwrap();
    assert_eq!(packet.len(), MAX_PAYLOAD_SIZE + 68);
    assert!(packet.len() <= MAX_PACKET_SIZE);
}

#[test]
fn short_packets_are_refused() {
    let key = TunnelKey::from_bytes(&[0u8; 32]);
    assert_eq!(
        key.decrypt(&[0u8; 39]).unwrap_err(),
        CryptoError::PacketTooShort { len: 39, need: 40 }
    );
    assert_eq!(key.decrypt(&[0u8; 40]).unwrap_err(), CryptoError::DecryptionFailed);
    assert_eq!(peek_key_id(&[0u8; 43]).unwrap_err(), CryptoError::NoKeyId);
    assert_eq!(peek_key_id(&[7u8; 44]).unwrap(), [7, 7, 7, 7]);
    assert_eq!(open(&key, &[0u8; 43]).unwrap_err(), CryptoError::TooShort);
}

#[test]
fn sealed_rubbish_is_no_message() {
    let key = TunnelKey::from_bytes(&[8u8; 32]);
    let mut packet = key.key_id.to_vec();
    key.encrypt_into(&[9, 0, 0, 0], &mut packet).unwrap();
    let reason = "invalid value: integer `9`, expected variant index 0 <= i < 8";
    let error = open(&key, &packet).unwrap_err();
    assert_eq!(error, CryptoError::Codec(CodecError::Decode(reason.to_string())));
    assert_eq!(error.to_text(), reason);
}

#[test]
fn errors_in_words() {
    assert_eq!(
        CryptoError::PacketTooShort { len: 3, need: 40 }.to_text(),
        "packet too short: 3 bytes (need at least 40)"
    );
    assert_eq!(CryptoError::NoKeyId.to_text(), "packet too short for key_id extraction");
    assert_eq!(CryptoError::TooShort.to_text(), "packet too short");
    assert_eq!(CryptoError::EncryptionFailed.to_text(), "encryption failed: aead::Error");
    assert_eq!(CryptoError::DecryptionFailed.to_text(), "decryption failed: aead::Error");
}

#[test]
fn ordinary_lengths_suit_the_cipher() {
    assert!(returns_for(0));
    assert!(returns_for(4096));
    assert!(returns_for(274_877_906_816));
    assert!(!returns_for(274_877_906_817));
    assert!(!returns_for(274_877_906_879));
    assert!(returns_for(274_877_906_880));
}
