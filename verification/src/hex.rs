//! Keys and digests in hexadecimal.

use vstd::prelude::*;
use vstd::string::StringExecFns;
use vstd::utf8;
use crate::cipher::random_bytes;
use crate::text::{self, push_decimal};
use sha2::{Digest, Sha256};

verus! {

/// The value of a hexadecimal digit, given as its ASCII byte.
pub open spec fn hex_value(b: u8) -> Option<u8> {
    if 0x30 <= b <= 0x39 {
        Some((b - 0x30) as u8)
    } else if 0x41 <= b <= 0x46 {
        Some((b - 0x41 + 10) as u8)
    } else if 0x61 <= b <= 0x66 {
        Some((b - 0x61 + 10) as u8)
    } else {
        None
    }
}

/// The value of two hexadecimal digits, given as their ASCII bytes.
pub open spec fn pair_value(first: u8, second: u8) -> Option<u8> {
    match (hex_value(first), hex_value(second)) {
        (Some(high), Some(low)) => Some((16 * high + low) as u8),
        _ => None,
    }
}

/// Whether pair number `i` of `b` is the first that is not two digits.
pub open spec fn first_bad_pair(b: Seq<u8>, i: int) -> bool {
    &&& pair_value(b[2 * i], b[2 * i + 1]) is None
    &&& forall|j: int| 0 <= j < i ==> (#[trigger] pair_value(b[2 * j], b[2 * j + 1])) is Some
}

/// The character of a hexadecimal digit.
pub open spec fn hex_digit(d: nat) -> char {
    if d < 10 {
        ('0' as u8 + d) as char
    } else {
        ('a' as u8 + d - 10) as char
    }
}

/// Bytes in hexadecimal, two lower-case digits each.
pub open spec fn hex_text(b: Seq<u8>) -> Seq<char> {
    Seq::new(
        2 * b.len(),
        |i: int|
            hex_digit(
                if i % 2 == 0 {
                    b[i / 2] as nat / 16
                } else {
                    b[i / 2] as nat % 16
                },
            ),
    )
}

/// Whether a character is a hexadecimal digit, in either case.
pub open spec fn is_hex_char(c: char) -> bool {
    ||| '0' <= c <= '9'
    ||| 'A' <= c <= 'F'
    ||| 'a' <= c <= 'f'
}

/// Whether a text is that of 32 bytes: sixty-four hexadecimal digits.
pub open spec fn is_hex32(text: Seq<char>) -> bool {
    &&& text.len() == 64
    &&& forall|i: int| 0 <= i < 64 ==> is_hex_char(#[trigger] text[i])
}

/// Whether a text is what writing a key of 32 bytes gives.
pub open spec fn is_key_text(text: Seq<char>) -> bool {
    exists|key: Seq<u8>| key.len() == 32 && text == #[trigger] hex_text(key)
}

/// Why a text is not that of a key.
#[derive(Debug, Clone, Copy, PartialEq, Eq, Structural)]
pub enum HexError {
    /// It has not 64 bytes.
    WrongLength { len: usize },
    /// The two bytes from `position` on are not two digits.
    InvalidDigit { position: usize },
}

impl HexError {
    /// What [`HexError::to_text`] gives.
    pub open spec fn text(self) -> Seq<char> {
        match self {
            HexError::WrongLength { len } => "key must be 64 hex characters (32 bytes), got "@
                + text::decimal(len as nat),
            HexError::InvalidDigit { position } => "invalid hex at position "@ + text::decimal(
                position as nat,
            ) + ": invalid digit found in string"@,
        }
    }

    /// What [`HexError::to_label`] gives.
    pub open spec fn label(self) -> Seq<char> {
        match self {
            HexError::WrongLength { len } => "Key must be 64 hex chars (32 bytes), got "@
                + text::decimal(len as nat),
            HexError::InvalidDigit { position } => "Invalid hex at position "@ + text::decimal(
                position as nat,
            ) + ": invalid digit found in string"@,
        }
    }

    /// The error in words, for a log.
    pub fn to_text(&self) -> (text: String)
        ensures
            text@ == self.text(),
    {
        match self {
            HexError::WrongLength { len } => {
                let mut out = "key must be 64 hex characters (32 bytes), got ".to_owned();
                push_decimal(&mut out, *len as u64);
                out
            },
            HexError::InvalidDigit { position } => {
                let mut out = "invalid hex at position ".to_owned();
                push_decimal(&mut out, *position as u64);
                out.append(": invalid digit found in string");
                out
            },
        }
    }

    /// The error in words, for a user.
    pub fn to_label(&self) -> (text: String)
        ensures
            text@ == self.label(),
    {
        match self {
            HexError::WrongLength { len } => {
                let mut out = "Key must be 64 hex chars (32 bytes), got ".to_owned();
                push_decimal(&mut out, *len as u64);
                out
            },
            HexError::InvalidDigit { position } => {
                let mut out = "Invalid hex at position ".to_owned();
                push_decimal(&mut out, *position as u64);
                out.append(": invalid digit found in string");
                out
            },
        }
    }
}

fn hex_digit_value(b: u8) -> (value: Option<u8>)
    ensures
        value == hex_value(b),
{
    if 0x30 <= b && b <= 0x39 {
        Some(b - 0x30)
    } else if 0x41 <= b && b <= 0x46 {
        Some(b - 0x41 + 10)
    } else if 0x61 <= b && b <= 0x66 {
        Some(b - 0x61 + 10)
    } else {
        None
    }
}

fn hex_pair_value(first: u8, second: u8) -> (value: Option<u8>)
    ensures
        value == pair_value(first, second),
{
    match (hex_digit_value(first), hex_digit_value(second)) {
        (Some(high), Some(low)) => Some(16 * high + low),
        _ => None,
    }
}

/// Reads the 32 bytes of a key from sixty-four hexadecimal digits.
pub fn hex_decode(hex: &str) -> (r: Result<[u8; 32], HexError>)
    ensures
        r is Ok <==> is_hex32(hex@),
        match r {
            Ok(key) => {
                &&& utf8::encode_utf8(hex@).len() == 64
                &&& forall|i: int|
                    0 <= i < 32 ==> pair_value(
                        utf8::encode_utf8(hex@)[2 * i],
                        utf8::encode_utf8(hex@)[2 * i + 1],
                    ) == Some(#[trigger] key@[i])
            },
            Err(HexError::WrongLength { len }) => {
                &&& utf8::encode_utf8(hex@).len() != 64
                &&& len == utf8::encode_utf8(hex@).len()
            },
            Err(HexError::InvalidDigit { position }) => {
                &&& utf8::encode_utf8(hex@).len() == 64
                &&& position < 64
                &&& position % 2 == 0
                &&& first_bad_pair(utf8::encode_utf8(hex@), position as int / 2)
            },
        },
{
    let b: &[u8] = hex.as_bytes();
    proof {
        lemma_hex_pairs(hex@);
    }
    if b.len() != 64 {
        return Err(HexError::WrongLength { len: b.len() });
    }
    let mut out: [u8; 32] = [0u8; 32];
    let mut i: usize = 0;
    while i < 32
        invariant
            0 <= i <= 32,
            b@ == utf8::encode_utf8(hex@),
            b@.len() == 64,
            forall|j: int|
                0 <= j < i ==> pair_value(b@[2 * j], b@[2 * j + 1]) == Some(#[trigger] out@[j]),
        decreases 32 - i,
    {
        match hex_pair_value(b[2 * i], b[2 * i + 1]) {
            Some(value) => {
                out[i] = value;
            },
            None => {
                proof {
                    assert forall|j: int| 0 <= j < i implies (#[trigger] pair_value(
                        b@[2 * j],
                        b@[2 * j + 1],
                    )) is Some by {
                        assert(pair_value(b@[2 * j], b@[2 * j + 1]) == Some(out@[j]));
                    }
                    lemma_hex_pairs(hex@);
                    assert(pair_value(b@[2 * i], b@[2 * i + 1]) is None);
                }
                return Err(HexError::InvalidDigit { position: 2 * i });
            },
        }
        i = i + 1;
    }
    proof {
        assert forall|j: int| 0 <= j < 32 implies (#[trigger] pair_value(
            b@[2 * j],
            b@[2 * j + 1],
        )) is Some by {
            assert(pair_value(b@[2 * j], b@[2 * j + 1]) == Some(out@[j]));
        }
    }
    Ok(out)
}

fn push_hex_digit(out: &mut String, d: u8)
    requires
        d < 16,
    ensures
        final(out)@ == old(out)@.push(hex_digit(d as nat)),
{
    proof {
        reveal_strlit("0");
        reveal_strlit("1");
        reveal_strlit("2");
        reveal_strlit("3");
        reveal_strlit("4");
        reveal_strlit("5");
        reveal_strlit("6");
        reveal_strlit("7");
        reveal_strlit("8");
        reveal_strlit("9");
        reveal_strlit("a");
        reveal_strlit("b");
        reveal_strlit("c");
        reveal_strlit("d");
        reveal_strlit("e");
        reveal_strlit("f");
    }
    let text: &str = match d {
        0 => "0",
        1 => "1",
        2 => "2",
        3 => "3",
        4 => "4",
        5 => "5",
        6 => "6",
        7 => "7",
        8 => "8",
        9 => "9",
        10 => "a",
        11 => "b",
        12 => "c",
        13 => "d",
        14 => "e",
        _ => "f",
    };
    assert(text@ =~= seq![hex_digit(d as nat)]);
    out.append(text);
    assert(out@ =~= old(out)@.push(hex_digit(d as nat)));
}

/// Bytes in hexadecimal, two lower-case digits each.
pub fn hex_encode(bytes: &[u8]) -> (text: String)
    ensures
        text@ == hex_text(bytes@),
{
    let mut out = String::new();
    let mut i: usize = 0;
    while i < bytes.len()
        invariant
            0 <= i <= bytes.len(),
            out@ == hex_text(bytes@.take(i as int)),
        decreases bytes.len() - i,
    {
        push_hex_digit(&mut out, bytes[i] / 16);
        push_hex_digit(&mut out, bytes[i] % 16);
        i = i + 1;
        assert(out@ =~= hex_text(bytes@.take(i as int)));
    }
    assert(bytes@.take(i as int) =~= bytes@);
    out
}

/// The SHA-256 digest of some bytes.
pub uninterp spec fn sha256(data: Seq<u8>) -> Seq<u8>;

/// Calls `Sha256::digest`.
///
/// The result has 32 bytes and depends on the data alone.
#[verifier::external_body]
fn sha256_digest(data: &[u8]) -> (digest: [u8; 32])
    ensures
        digest@ == sha256(data@),
{
    Sha256::digest(data).into()
}

/// The SHA-256 digest of some bytes, in hexadecimal.
pub fn sha256_hex(data: &[u8]) -> (text: String)
    ensures
        text@ == hex_text(sha256(data@)),
        is_hex32(text@),
{
    let digest: [u8; 32] = sha256_digest(data);
    proof {
        lemma_hex_text_is_hex(digest@);
    }
    hex_encode(digest.as_slice())
}

/// A random key in hexadecimal.
pub fn generate_key_hex() -> (text: String)
    ensures
        is_key_text(text@),
{
    let key: [u8; 32] = random_bytes::<32>();
    proof {
        lemma_hex_text_is_hex(key@);
    }
    hex_encode(key.as_slice())
}

/// Whether a text is that of 32 bytes: sixty-four hexadecimal digits.
pub fn is_hex_key(text: &str) -> (r: bool)
    ensures
        r == is_hex32(text@),
{
    if !text.is_ascii() {
        assert(!is_hex32(text@)) by {
            if is_hex32(text@) {
                assert(utf8::is_ascii_chars(text@));
            }
        }
        return false;
    }
    proof {
        utf8::is_ascii_chars_encode_utf8(text@);
    }
    let b: &[u8] = text.as_bytes();
    if b.len() != 64 {
        return false;
    }
    let mut i: usize = 0;
    while i < 64
        invariant
            0 <= i <= 64,
            b@ == utf8::encode_utf8(text@),
            b@.len() == 64,
            text@.len() == 64,
            utf8::is_ascii_chars(text@),
            forall|j: int| 0 <= j < 64 ==> text@[j] as u8 == #[trigger] b@[j],
            forall|j: int| 0 <= j < i ==> is_hex_char(#[trigger] text@[j]),
        decreases 64 - i,
    {
        assert(text@[i as int] as u8 == b@[i as int]);
        if hex_digit_value(b[i]).is_none() {
            assert(!is_hex_char(text@[i as int]));
            return false;
        }
        i = i + 1;
    }
    true
}

/// Every digit of bytes in hexadecimal is one.
pub proof fn lemma_hex_text_is_hex(b: Seq<u8>)
    ensures
        hex_text(b).len() == 2 * b.len(),
        forall|i: int| 0 <= i < 2 * b.len() ==> is_hex_char(#[trigger] hex_text(b)[i]),
        b.len() == 32 ==> is_hex32(hex_text(b)),
{
}

/// Reading a key that was written in hexadecimal gives its bytes back.
pub proof fn lemma_hex_roundtrip(key: Seq<u8>)
    requires
        key.len() == 32,
    ensures
        ({
            let b = utf8::encode_utf8(hex_text(key));
            &&& b.len() == 64
            &&& forall|i: int|
                0 <= i < 32 ==> pair_value(b[2 * i], b[2 * i + 1]) == Some(#[trigger] key[i])
        }),
{
    let t = hex_text(key);
    let b = utf8::encode_utf8(t);
    lemma_hex_text_is_hex(key);
    assert(utf8::is_ascii_chars(t));
    utf8::is_ascii_chars_encode_utf8(t);
    assert forall|i: int| 0 <= i < 32 implies pair_value(b[2 * i], b[2 * i + 1]) == Some(
        #[trigger] key[i],
    ) by {
        assert(t[2 * i] == hex_digit(key[i] as nat / 16));
        assert(t[2 * i + 1] == hex_digit(key[i] as nat % 16));
        assert(b[2 * i] == t[2 * i] as u8);
        assert(b[2 * i + 1] == t[2 * i + 1] as u8);
        assert(hex_value(b[2 * i]) == Some((key[i] / 16) as u8));
        assert(hex_value(b[2 * i + 1]) == Some((key[i] % 16) as u8));
    }
}

/// A text is sixty-four hexadecimal digits if and only if it has as many bytes
/// and each two of them are two digits.
pub proof fn lemma_hex_pairs(text: Seq<char>)
    ensures
        ({
            let b = utf8::encode_utf8(text);
            is_hex32(text) <==> {
                &&& b.len() == 64
                &&& forall|i: int|
                    0 <= i < 32 ==> (#[trigger] pair_value(b[2 * i], b[2 * i + 1])) is Some
            }
        }),
{
    let b = utf8::encode_utf8(text);
    if is_hex32(text) {
        assert(utf8::is_ascii_chars(text));
        utf8::is_ascii_chars_encode_utf8(text);
        assert forall|i: int| 0 <= i < 32 implies (#[trigger] pair_value(
            b[2 * i],
            b[2 * i + 1],
        )) is Some by {
            assert(is_hex_char(text[2 * i]) && is_hex_char(text[2 * i + 1]));
            assert(text[2 * i] as u8 == b[2 * i] && text[2 * i + 1] as u8 == b[2 * i + 1]);
        }
    }
    if b.len() == 64 && forall|i: int|
        0 <= i < 32 ==> (#[trigger] pair_value(b[2 * i], b[2 * i + 1])) is Some {
        assert forall|k: int| 0 <= k < 64 implies hex_value(#[trigger] b[k]) is Some by {
            assert(pair_value(b[2 * (k / 2)], b[2 * (k / 2) + 1]) is Some);
        }
        lemma_ascii_bytes(text);
        utf8::is_ascii_chars_encode_utf8(text);
        assert forall|k: int| 0 <= k < 64 implies is_hex_char(#[trigger] text[k]) by {
            assert(text[k] as u8 == b[k]);
            assert(hex_value(b[k]) is Some);
        }
    }
}

proof fn lemma_ascii_char(c: char)
    requires
        c as u32 <= 0x7f,
    ensures
        '\0' <= c <= '\u{7f}',
{
}

/// A text whose bytes are all ASCII is ASCII.
proof fn lemma_ascii_bytes(text: Seq<char>)
    requires
        forall|k: int|
            0 <= k < utf8::encode_utf8(text).len() ==> #[trigger] utf8::encode_utf8(text)[k] < 0x80,
    ensures
        utf8::is_ascii_chars(text),
    decreases text.len(),
{
    if text.len() > 0 {
        let b = utf8::encode_utf8(text);
        let first = utf8::encode_scalar(text[0] as u32);
        let rest = text.drop_first();
        utf8::encode_utf8_first_scalar(text);
        assert(b[0] < 0x80);
        assert(first.len() == 1);
        assert(utf8::has_width_1_encoding(text[0] as u32));
        assert forall|k: int| 0 <= k < utf8::encode_utf8(rest).len() implies #[trigger] utf8::encode_utf8(
            rest,
        )[k] < 0x80 by {
            assert(b[k + 1] == utf8::encode_utf8(rest)[k]);
        }
        lemma_ascii_bytes(rest);
        assert forall|i: int| 0 <= i < text.len() implies '\0' <= #[trigger] text[i] <= '\u{7f}' by {
            if i > 0 {
                assert(text[i] == rest[i - 1]);
            } else {
                lemma_ascii_char(text[0]);
            }
        }
    }
}

/// The number that a hexadecimal digit stands for, if a character is one.
pub open spec fn digit_value(c: char) -> Option<u8> {
    match c {
        '0' => Some(0),
        '1' => Some(1),
        '2' => Some(2),
        '3' => Some(3),
        '4' => Some(4),
        '5' => Some(5),
        '6' => Some(6),
        '7' => Some(7),
        '8' => Some(8),
        '9' => Some(9),
        'a' | 'A' => Some(10),
        'b' | 'B' => Some(11),
        'c' | 'C' => Some(12),
        'd' | 'D' => Some(13),
        'e' | 'E' => Some(14),
        'f' | 'F' => Some(15),
        _ => None,
    }
}

/// Whether a byte is that of a hexadecimal digit.
pub open spec fn is_digit_byte(b: u8) -> bool {
    digit_value(b as char) is Some
}

/// Reading a digit from its byte gives what the digit stands for.
pub proof fn lemma_digit_byte(b: u8)
    ensures
        hex_value(b) == digit_value(b as char),
        is_digit_byte(b) <==> hex_value(b) is Some,
{
}

/// A text is that of 32 bytes if and only if it is made of sixty-four characters that
/// stand for a number each.
pub proof fn lemma_hex32(text: Seq<char>)
    ensures
        is_hex32(text) <==> {
            &&& text.len() == 64
            &&& forall|i: int| 0 <= i < 64 ==> digit_value(#[trigger] text[i]) is Some
        },
{
    assert forall|c: char| is_hex_char(c) <==> (#[trigger] digit_value(c)) is Some by {}
}

/// The bytes of hexadecimal digits stand for what the digits stand for.
pub proof fn lemma_digit_bytes(text: Seq<char>)
    requires
        forall|i: int| 0 <= i < text.len() ==> is_hex_char(#[trigger] text[i]),
    ensures
        utf8::encode_utf8(text).len() == text.len(),
        forall|i: int|
            0 <= i < text.len() ==> hex_value(#[trigger] utf8::encode_utf8(text)[i]) == digit_value(
                text[i],
            ),
{
    assert(utf8::is_ascii_chars(text));
    utf8::is_ascii_chars_encode_utf8(text);
}

/// The digits written for a byte stand for its high and its low half, and are in
/// lower case.
pub proof fn lemma_hex_text_digits(b: Seq<u8>, i: int)
    requires
        0 <= i < b.len(),
    ensures
        digit_value(hex_text(b)[2 * i]) == Some((b[i] / 16) as u8),
        digit_value(hex_text(b)[2 * i + 1]) == Some((b[i] % 16) as u8),
        !('A' <= hex_text(b)[2 * i] <= 'F'),
        !('A' <= hex_text(b)[2 * i + 1] <= 'F'),
{
}

} // verus!
