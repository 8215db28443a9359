use aion2_tunnel::framing::{frame_header, read_framed, FrameRead, FrameTooLarge};
use aion2_tunnel::hex::{
    generate_key_hex, hex_decode, hex_encode, is_hex_key, sha256_hex, HexError,
};
use aion2_tunnel::text::{now_iso, push_decimal, push_ip, trim};

#[test]
fn decimal_numbers() {
    for n in [0, 7, 10, 99, 100, 12345, u64::MAX] {
        let mut out = String::from("n=");
        push_decimal(&mut out, n);
        assert_eq!(out, format!("n={n}"));
    }
    let mut ip = String::new();
    push_ip(&mut ip, &[0, 10, 200, 255]);
    assert_eq!(ip, "0.10.200.255");
}

#[test]
fn times_of_day() {
    assert_eq!(now_iso(0), "00:00:00");
    assert_eq!(now_iso(86_399), "23:59:59");
    assert_eq!(now_iso(86_400 + 3_661), "01:01:01");
    assert_eq!(now_iso(u64::MAX), "07:00:15");
}

#[test]
fn white_space_is_trimmed() {
    for t in ["", " ", "a", " a", "a ", "\t a b\r\n", "\u{a0}x\u{3000}", "\u{200b}x", "\u{2003}", "é è"] {
        assert_eq!(trim(t), t.trim());
    }
}

const DIGITS: &str = "000102030405060708090a0b0c0d0e0f101112131415161718191A1B1C1D1E1F";

#[test]
fn keys_are_read_from_hex() {
    let key = hex_decode(DIGITS).unwrap();
    for i in 0..32 {
        assert_eq!(key[i] as usize, i);
    }
    assert_eq!(hex_encode(&key), DIGITS.to_lowercase());
    // A sign is no digit.
    let mut signed = String::from("00+f");
    signed.push_str(&DIGITS[4..]);
    assert_eq!(hex_decode(&signed).unwrap_err(), HexError::InvalidDigit { position: 2 });
    assert_eq!(
        hex_decode(&"+0".repeat(32)).unwrap_err(),
        HexError::InvalidDigit { position: 0 }
    );
}

#[test]
fn hex_comes_back() {
    let key: [u8; 32] = std::array::from_fn(|i| (i * 37 + 200) as u8);
    assert_eq!(hex_decode(&hex_encode(&key)).unwrap(), key);
    assert_eq!(hex_encode(&[]), "");
    assert_eq!(hex_encode(&[0x0f, 0xf0]), "0ff0");
}

#[test]
fn bad_keys_are_refused() {
    assert_eq!(hex_decode("abc").unwrap_err(), HexError::WrongLength { len: 3 });
    assert_eq!(hex_decode(&"é".repeat(31)).unwrap_err(), HexError::WrongLength { len: 62 });
    let mut bad = String::from(DIGITS);
    bad.replace_range(10..12, "g0");
    assert_eq!(hex_decode(&bad).unwrap_err(), HexError::InvalidDigit { position: 10 });
    bad.replace_range(4..6, "-1");
    assert_eq!(hex_decode(&bad).unwrap_err(), HexError::InvalidDigit { position: 4 });
    bad.replace_range(0..2, "é");
    assert_eq!(hex_decode(&bad).unwrap_err(), HexError::InvalidDigit { position: 0 });
    // A character may lie across two pairs.
    let mut split = String::from(DIGITS);
    split.replace_range(1..3, "é");
    assert_eq!(hex_decode(&split).unwrap_err(), HexError::InvalidDigit { position: 0 });
    let mut later = String::from(DIGITS);
    later.replace_range(61..63, "é");
    assert_eq!(hex_decode(&later).unwrap_err(), HexError::InvalidDigit { position: 60 });
    assert_eq!(
        hex_decode(&"é".repeat(32)).unwrap_err(),
        HexError::InvalidDigit { position: 0 }
    );
}

#[test]
fn hex_errors_in_words() {
    let wrong = HexError::WrongLength { len: 3 };
    assert_eq!(wrong.to_text(), "key must be 64 hex characters (32 bytes), got 3");
    assert_eq!(wrong.to_label(), "Key must be 64 hex chars (32 bytes), got 3");
    let bad = HexError::InvalidDigit { position: 10 };
    assert_eq!(bad.to_text(), "invalid hex at position 10: invalid digit found in string");
    assert_eq!(bad.to_label(), "Invalid hex at position 10: invalid digit found in string");
}

#[test]
fn digests() {
    assert_eq!(
        sha256_hex(b"abc"),
        "ba7816bf8f01cfea414140de5dae2223b00361a396177a9cb410ff61f20015ad"
    );
    assert_eq!(
        sha256_hex(b""),
        "e3b0c44298fc1c149afbf4c8996fb92427ae41e4649b934ca495991b7852b855"
    );
}

#[test]
fn generated_keys_are_keys() {
    let a = generate_key_hex();
    let b = generate_key_hex();
    assert!(is_hex_key(&a));
    assert!(hex_decode(&a).is_ok());
    assert_ne!(a, b);
    assert_ne!(a, "0".repeat(64));
}

#[test]
fn sixty_four_digits_are_a_key() {
    assert!(is_hex_key(DIGITS));
    assert!(!is_hex_key(&DIGITS[1..]));
    assert!(!is_hex_key(&DIGITS.replace('f', "g")));
    assert!(!is_hex_key(&"é".repeat(32)));
    assert!(!is_hex_key(&format!("+{}", &DIGITS[1..])));
}

#[test]
fn frames_come_back() {
    let packet = vec![5u8; 300];
    let header = frame_header(&packet);
    assert_eq!(header, [0, 0, 1, 44]);
    let mut stream = header.to_vec();
    stream.extend_from_slice(&packet);
    assert!(matches!(read_framed(&stream[..3]), FrameRead::Incomplete));
    assert!(matches!(read_framed(&stream[..303]), FrameRead::Incomplete));
    assert!(matches!(read_framed(&stream), FrameRead::Packet(p) if p == packet));
    stream.push(1);
    assert!(matches!(read_framed(&stream), FrameRead::Packet(p) if p == packet));
    assert!(matches!(read_framed(&[0, 0, 0, 0]), FrameRead::Packet(p) if p.is_empty()));
}

#[test]
fn large_frames_are_refused() {
    assert!(matches!(read_framed(&[0, 0, 0x10, 0]), FrameRead::Incomplete));
    assert!(matches!(
        read_framed(&[0, 0, 0x10, 1]),
        FrameRead::TooLarge(FrameTooLarge { len: 4097 })
    ));
    assert_eq!(FrameTooLarge { len: 4097 }.to_text(), "frame too large: 4097");
}
