//! Tunnel keys, and sealing and opening packets with them.

use vstd::prelude::*;
use vstd::string::StringExecFns;
use crate::bytes::{self, u32_from_le, u32_to_le};
use crate::cipher::{self, random_bytes, CipherKey, NONCE_SIZE, TAG_SIZE};
use crate::protocol::{self, decode_message, encode_message, CodecError, TunnelMessage};
use crate::text::{self, push_decimal};

verus! {

/// The four bytes in front of every packet by which a relay finds the key.
pub type KeyId = [u8; 4];

/// Size of the key id in front of a packet.
pub const KEY_ID_SIZE: usize = 4;

/// Shared symmetric key of a tunnel.
#[derive(Clone, Copy)]
pub struct TunnelKey {
    /// The secret part.
    pub cipher: CipherKey,
    /// Identifies this key on the wire.
    pub key_id: KeyId,
}

/// Why a packet could not be made or read.
#[derive(Debug, Clone, PartialEq, Eq)]
pub enum CryptoError {
    /// The packet is shorter than a nonce and a tag.
    PacketTooShort { len: usize, need: usize },
    /// The packet is too short for a key id in front of it.
    NoKeyId,
    /// The packet is too short for a key id, a nonce and a tag.
    TooShort,
    /// The cipher could not encrypt.
    EncryptionFailed,
    /// The cipher did not accept the packet.
    DecryptionFailed,
    /// The message could not be written or read.
    Codec(CodecError),
}

impl CryptoError {
    /// What [`CryptoError::to_text`] gives.
    pub open spec fn text(self) -> Seq<char> {
        match self {
            CryptoError::PacketTooShort { len, need } => "packet too short: "@ + text::decimal(
                len as nat,
            ) + " bytes (need at least "@ + text::decimal(need as nat) + ")"@,
            CryptoError::NoKeyId => "packet too short for key_id extraction"@,
            CryptoError::TooShort => "packet too short"@,
            CryptoError::EncryptionFailed => "encryption failed: aead::Error"@,
            CryptoError::DecryptionFailed => "decryption failed: aead::Error"@,
            CryptoError::Codec(CodecError::Encode) => "message cannot be written"@,
            CryptoError::Codec(CodecError::Decode(reason)) => reason@,
        }
    }

    /// The error in words.
    pub fn to_text(&self) -> (text: String)
        ensures
            text@ == self.text(),
    {
        match self {
            CryptoError::PacketTooShort { len, need } => {
                let mut out = "packet too short: ".to_owned();
                push_decimal(&mut out, *len as u64);
                out.append(" bytes (need at least ");
                push_decimal(&mut out, *need as u64);
                out.append(")");
                out
            },
            CryptoError::NoKeyId => "packet too short for key_id extraction".to_owned(),
            CryptoError::TooShort => "packet too short".to_owned(),
            CryptoError::EncryptionFailed => "encryption failed: aead::Error".to_owned(),
            CryptoError::DecryptionFailed => "decryption failed: aead::Error".to_owned(),
            CryptoError::Codec(CodecError::Encode) => "message cannot be written".to_owned(),
            CryptoError::Codec(CodecError::Decode(reason)) => reason.clone(),
        }
    }
}

/// The exclusive or of every fourth byte of a key, from byte `c` on.
pub open spec fn key_column(key: Seq<u8>, c: int) -> u8 {
    key[c] ^ key[c + 4] ^ key[c + 8] ^ key[c + 12] ^ key[c + 16] ^ key[c + 20] ^ key[c + 24]
        ^ key[c + 28]
}

/// The id of a key: the key folded into four bytes, taken as a number in
/// little-endian order and multiplied by a constant modulo 2^32.
pub open spec fn key_id_of(key: Seq<u8>) -> Seq<u8> {
    let folded = seq![
        key_column(key, 0),
        key_column(key, 1),
        key_column(key, 2),
        key_column(key, 3),
    ];
    bytes::le32(((bytes::from_le32(folded) * 0x9E37_79B9) % 0x1_0000_0000) as u32)
}

/// The key made of some secret bytes.
pub open spec fn tunnel_key(secret: Seq<u8>) -> TunnelKey {
    choose|key: TunnelKey| #![trigger key.secret()]
        key.secret() == secret && key.key_id@ == key_id_of(secret)
}

/// A key whose id is that of its secret bytes is the one made of them.
pub proof fn lemma_tunnel_key(key: TunnelKey)
    requires
        key.key_id@ == key_id_of(key.secret()),
    ensures
        key == tunnel_key(key.secret()),
{
    let same = tunnel_key(key.secret());
    assert(same.secret() == key.secret() && same.key_id@ == key.key_id@);
    cipher::lemma_same_bytes_same_key(same.cipher, key.cipher);
    assert(same.key_id =~= key.key_id);
}

fn fold_column(key: &[u8; 32], c: usize) -> (x: u8)
    requires
        c < 4,
    ensures
        x == key_column(key@, c as int),
{
    key[c] ^ key[c + 4] ^ key[c + 8] ^ key[c + 12] ^ key[c + 16] ^ key[c + 20] ^ key[c + 24]
        ^ key[c + 28]
}

/// The id of a key. Two keys may share one: a packet under the wrong key then
/// fails to decrypt.
pub fn compute_key_id(key: &[u8; 32]) -> (id: KeyId)
    ensures
        id@ == key_id_of(key@),
{
    let id: [u8; 4] = [
        fold_column(key, 0),
        fold_column(key, 1),
        fold_column(key, 2),
        fold_column(key, 3),
    ];
    proof {
        assert(id@ =~= seq![
            key_column(key@, 0),
            key_column(key@, 1),
            key_column(key@, 2),
            key_column(key@, 3),
        ]);
    }
    let mixed: u32 = u32_from_le(&id).wrapping_mul(0x9E37_79B9);
    u32_to_le(mixed)
}

impl TunnelKey {
    /// The 32 bytes of the key.
    pub open spec fn secret(self) -> Seq<u8> {
        self.cipher@
    }

    /// Whether `packet` is a nonce and `plaintext` encrypted under it.
    pub open spec fn encrypts(self, plaintext: Seq<u8>, packet: Seq<u8>) -> bool {
        &&& packet.len() == plaintext.len() + 40
        &&& packet.skip(24) == cipher::xchacha20poly1305_seal(self.secret(), packet.take(24), plaintext)
    }

    /// The plaintext in a packet, if the packet is one under this key.
    pub open spec fn decrypted(self, packet: Seq<u8>) -> Option<Seq<u8>> {
        if packet.len() < 40 {
            None
        } else {
            cipher::xchacha20poly1305_open(self.secret(), packet.take(24), packet.skip(24))
        }
    }

    /// Whether a packet that differs from `packet` in its last sixteen bytes, and
    /// only there, is never accepted.
    pub open spec fn rejects_other_tags(self, packet: Seq<u8>) -> bool {
        forall|other: Seq<u8>| #![trigger self.decrypted(other)]
            other.len() == packet.len() && other.take(other.len() - 16) == packet.take(
                packet.len() - 16,
            ) && other != packet ==> self.decrypted(other) is None
    }

    /// The key made of 32 secret bytes.
    pub fn from_bytes(key: &[u8; 32]) -> (r: Self)
        ensures
            r == tunnel_key(key@),
            r.secret() == key@,
            r.key_id@ == key_id_of(key@),
    {
        let r = TunnelKey { cipher: CipherKey::new(key), key_id: compute_key_id(key) };
        proof {
            lemma_tunnel_key(r);
        }
        r
    }

    /// A random key, and its bytes.
    pub fn generate() -> (r: ([u8; 32], Self))
        ensures
            r.1 == tunnel_key(r.0@),
            r.1.secret() == r.0@,
            r.1.key_id@ == key_id_of(r.0@),
    {
        let key_bytes: [u8; 32] = random_bytes::<32>();
        let key = Self::from_bytes(&key_bytes);
        (key_bytes, key)
    }

    /// Encrypts, and appends nonce, ciphertext and tag to `out`.
    pub fn encrypt_into(&self, plaintext: &[u8], out: &mut Vec<u8>) -> (r: Result<(), CryptoError>)
        requires
            cipher::cipher_returns(plaintext@.len()),
        ensures
            r is Ok <==> cipher::cipher_takes(plaintext@.len()),
            match r {
                Ok(()) => {
                    let packet = final(out)@.skip(old(out)@.len() as int);
                    &&& final(out)@ == old(out)@ + packet
                    &&& packet.len() == NONCE_SIZE + plaintext@.len() + TAG_SIZE
                    &&& self.encrypts(plaintext@, packet)
                    &&& self.decrypted(packet) == Some(plaintext@)
                    &&& self.rejects_other_tags(packet)
                },
                Err(e) => e == CryptoError::EncryptionFailed && final(out)@ == old(out)@,
            },
    {
        let nonce: [u8; 24] = random_bytes::<24>();
        self.encrypt_with_nonce(&nonce, plaintext, out)
    }

    /// Encrypts under a given nonce, and appends nonce, ciphertext and tag to
    /// `out`.
    pub fn encrypt_with_nonce(&self, nonce: &[u8; 24], plaintext: &[u8], out: &mut Vec<u8>) -> (r:
        Result<(), CryptoError>)
        requires
            cipher::cipher_returns(plaintext@.len()),
        ensures
            r is Ok <==> cipher::cipher_takes(plaintext@.len()),
            match r {
                Ok(()) => {
                    let packet = nonce@ + cipher::xchacha20poly1305_seal(self.secret(), nonce@, plaintext@);
                    &&& final(out)@ == old(out)@ + packet
                    &&& packet == final(out)@.skip(old(out)@.len() as int)
                    &&& self.encrypts(plaintext@, packet)
                    &&& self.decrypted(packet) == Some(plaintext@)
                    &&& self.rejects_other_tags(packet)
                },
                Err(e) => e == CryptoError::EncryptionFailed && final(out)@ == old(out)@,
            },
    {
        let ciphertext: Vec<u8> = match self.cipher.encrypt(nonce, plaintext) {
            Ok(c) => c,
            Err(_) => return Err(CryptoError::EncryptionFailed),
        };
        out.extend_from_slice(nonce.as_slice());
        out.extend_from_slice(ciphertext.as_slice());
        proof {
            let packet = nonce@ + ciphertext@;
            assert(out@ =~= old(out)@ + packet);
            assert(packet =~= out@.skip(old(out)@.len() as int));
            assert(packet.take(24) =~= nonce@);
            assert(packet.skip(24) =~= ciphertext@);
            assert forall|other: Seq<u8>| #![trigger self.decrypted(other)]
                other.len() == packet.len() && other.take(other.len() - 16) == packet.take(
                    packet.len() - 16,
                ) && other != packet implies self.decrypted(other) is None by {
                let n = packet.len() - 16;
                let tag = other.skip(n);
                assert(other.take(24) =~= nonce@) by {
                    assert(other.take(24) =~= other.take(n).take(24));
                    assert(packet.take(24) =~= packet.take(n).take(24));
                }
                assert(other.skip(24) =~= ciphertext@.take(ciphertext@.len() - 16) + tag) by {
                    assert(packet.take(n).skip(24) =~= ciphertext@.take(ciphertext@.len() - 16));
                    assert(other.take(n).skip(24) + tag =~= other.skip(24));
                }
                if tag == ciphertext@.skip(ciphertext@.len() - 16) {
                    assert(packet.skip(n) =~= tag);
                    assert(other =~= other.take(n) + other.skip(n));
                    assert(packet =~= packet.take(n) + packet.skip(n));
                    assert(false);
                }
            }
        }
        Ok(())
    }

    /// Encrypts. The result is nonce, ciphertext and tag.
    pub fn encrypt(&self, plaintext: &[u8]) -> (r: Result<Vec<u8>, CryptoError>)
        requires
            cipher::cipher_returns(plaintext@.len()),
        ensures
            r is Ok <==> cipher::cipher_takes(plaintext@.len()),
            match r {
                Ok(packet) => {
                    &&& self.encrypts(plaintext@, packet@)
                    &&& self.decrypted(packet@) == Some(plaintext@)
                    &&& self.rejects_other_tags(packet@)
                },
                Err(e) => e == CryptoError::EncryptionFailed,
            },
    {
        let mut out: Vec<u8> = Vec::new();
        match self.encrypt_into(plaintext, &mut out) {
            Ok(()) => {
                assert(out@.skip(0) =~= out@);
                Ok(out)
            },
            Err(e) => Err(e),
        }
    }

    /// Decrypts a packet of nonce, ciphertext and tag.
    pub fn decrypt(&self, packet: &[u8]) -> (r: Result<Vec<u8>, CryptoError>)
        requires
            packet@.len() >= 40 ==> cipher::cipher_returns((packet@.len() - 40) as nat),
        ensures
            match r {
                Ok(plaintext) => {
                    &&& self.decrypted(packet@) == Some(plaintext@)
                    &&& self.encrypts(plaintext@, packet@)
                },
                Err(e) => {
                    &&& self.decrypted(packet@) is None
                    &&& e == if packet@.len() < 40 {
                        CryptoError::PacketTooShort { len: packet@.len() as usize, need: 40 }
                    } else {
                        CryptoError::DecryptionFailed
                    }
                },
            },
    {
        if packet.len() < NONCE_SIZE + TAG_SIZE {
            return Err(
                CryptoError::PacketTooShort { len: packet.len(), need: NONCE_SIZE + TAG_SIZE },
            );
        }
        let (nonce_bytes, ciphertext) = packet.split_at(NONCE_SIZE);
        let nonce: [u8; 24] = nonce_array(nonce_bytes);
        proof {
            assert(nonce@ =~= packet@.take(24));
            assert(ciphertext@ =~= packet@.skip(24));
        }
        match self.cipher.decrypt(&nonce, ciphertext) {
            Ok(plaintext) => Ok(plaintext),
            Err(_) => Err(CryptoError::DecryptionFailed),
        }
    }
}

/// Twenty-four bytes as an array.
fn nonce_array(bytes: &[u8]) -> (nonce: [u8; 24])
    requires
        bytes@.len() == 24,
    ensures
        nonce@ == bytes@,
{
    let mut nonce: [u8; 24] = [0u8; 24];
    let mut i: usize = 0;
    while i < 24
        invariant
            i <= 24,
            bytes@.len() == 24,
            forall|j: int| 0 <= j < i ==> nonce@[j] == bytes@[j],
        decreases 24 - i,
    {
        nonce[i] = bytes[i];
        i = i + 1;
    }
    assert(nonce@ =~= bytes@);
    nonce
}

/// The number of bytes in front of a message's own in a packet, and behind them.
pub const PACKET_OVERHEAD: usize = 44;

/// Whether `packet` is `msg` sealed under `key`: the key's id, a nonce, and the
/// message encrypted.
pub open spec fn is_sealed(key: TunnelKey, msg: protocol::Message, packet: Seq<u8>) -> bool {
    &&& packet.len() == protocol::message_len(msg) + PACKET_OVERHEAD
    &&& packet.take(4) == key.key_id@
    &&& key.encrypts(protocol::message_bytes(msg), packet.skip(4))
}

/// The message in a packet, if the packet is one under `key`.
pub open spec fn opened(key: TunnelKey, packet: Seq<u8>) -> Option<protocol::Message> {
    if packet.len() < 44 {
        None
    } else {
        match key.decrypted(packet.skip(4)) {
            Some(plaintext) => protocol::parse_message(plaintext),
            None => None,
        }
    }
}

/// Whether `e` is why a packet that holds no message does not open.
pub open spec fn is_open_error(e: CryptoError, key: TunnelKey, packet: Seq<u8>) -> bool {
    if packet.len() < 44 {
        e == CryptoError::TooShort
    } else {
        match key.decrypted(packet.skip(4)) {
            None => e == CryptoError::DecryptionFailed,
            Some(plaintext) => {
                e matches CryptoError::Codec(CodecError::Decode(reason)) && reason@
                    == protocol::decode_error_text(plaintext)
            },
        }
    }
}

/// Why a packet that holds no message does not open, in words.
pub open spec fn open_error_text(key: TunnelKey, packet: Seq<u8>) -> Seq<char> {
    if packet.len() < 44 {
        CryptoError::TooShort.text()
    } else {
        match key.decrypted(packet.skip(4)) {
            None => CryptoError::DecryptionFailed.text(),
            Some(plaintext) => protocol::decode_error_text(plaintext),
        }
    }
}

/// Whether `packet` opens to `msg`, and opens no more
/// once its tag, its last sixteen bytes, is another.
pub open spec fn opens_only_as(key: TunnelKey, msg: protocol::Message, packet: Seq<u8>) -> bool {
    &&& opened(key, packet) == Some(msg)
    &&& forall|other: Seq<u8>| #![trigger opened(key, other)]
        other.len() == packet.len() && other.take(other.len() - 16) == packet.take(
            packet.len() - 16,
        ) && other != packet ==> opened(key, other) is None
}

/// Writes and encrypts a message: key id, nonce, ciphertext, tag.
pub fn seal(key: &TunnelKey, msg: &TunnelMessage) -> (r: Result<Vec<u8>, CryptoError>)
    requires
        cipher::cipher_returns(protocol::message_len(msg@)),
    ensures
        r is Ok <==> cipher::cipher_takes(protocol::message_len(msg@)),
        match r {
            Ok(packet) => {
                &&& is_sealed(*key, msg@, packet@)
                &&& opens_only_as(*key, msg@, packet@)
            },
            Err(e) => e == CryptoError::EncryptionFailed,
        },
{
    let plaintext: Vec<u8> = match encode_message(msg) {
        Ok(plaintext) => plaintext,
        Err(e) => return Err(CryptoError::Codec(e)),
    };
    proof {
        protocol::lemma_message_len(msg@);
    }
    let mut packet: Vec<u8> = Vec::new();
    packet.extend_from_slice(key.key_id.as_slice());
    match key.encrypt_into(plaintext.as_slice(), &mut packet) {
        Ok(()) => {},
        Err(e) => return Err(e),
    }
    proof {
        let body = packet@.skip(4);
        assert(packet@.take(4) =~= key.key_id@);
        assert(plaintext@ + Seq::<u8>::empty() =~= plaintext@);
        protocol::lemma_message_roundtrip(msg@, Seq::empty());
        assert forall|other: Seq<u8>| #![trigger opened(*key, other)]
            other.len() == packet@.len() && other.take(other.len() - 16) == packet@.take(
                packet@.len() - 16,
            ) && other != packet@ implies opened(*key, other) is None by {
            let n = packet@.len() - 16;
            assert(other.skip(4).take(n - 4) =~= other.take(n).skip(4));
            assert(body.take(n - 4) =~= packet@.take(n).skip(4));
            if other.skip(4) == body {
                assert(other =~= other.take(n).take(4) + other.skip(4));
                assert(packet@ =~= packet@.take(n).take(4) + body);
                assert(false);
            }
            assert(key.decrypted(other.skip(4)) is None);
        }
    }
    Ok(packet)
}

/// The key id in front of a packet.
pub fn peek_key_id(packet: &[u8]) -> (r: Result<KeyId, CryptoError>)
    ensures
        match r {
            Ok(id) => packet@.len() >= 44 && id@ == packet@.take(4),
            Err(e) => packet@.len() < 44 && e == CryptoError::NoKeyId,
        },
{
    if packet.len() < KEY_ID_SIZE + NONCE_SIZE + TAG_SIZE {
        return Err(CryptoError::NoKeyId);
    }
    let id: KeyId = [packet[0], packet[1], packet[2], packet[3]];
    assert(id@ =~= packet@.take(4));
    Ok(id)
}

/// Decrypts and reads a packet. Its key id is not looked at.
pub fn open(key: &TunnelKey, packet: &[u8]) -> (r: Result<TunnelMessage, CryptoError>)
    requires
        packet@.len() >= 44 ==> cipher::cipher_returns((packet@.len() - 44) as nat),
    ensures
        match r {
            Ok(msg) => opened(*key, packet@) == Some(msg@),
            Err(e) => opened(*key, packet@) is None && is_open_error(e, *key, packet@),
        },
{
    if packet.len() < KEY_ID_SIZE + NONCE_SIZE + TAG_SIZE {
        return Err(CryptoError::TooShort);
    }
    let (_, encrypted) = packet.split_at(KEY_ID_SIZE);
    assert(encrypted@ =~= packet@.skip(4));
    let plaintext: Vec<u8> = match key.decrypt(encrypted) {
        Ok(plaintext) => plaintext,
        Err(e) => return Err(e),
    };
    match decode_message(plaintext.as_slice()) {
        Ok(msg) => Ok(msg),
        Err(e) => Err(CryptoError::Codec(e)),
    }
}

/// Whether and as what a packet opens does not depend on the key id in front of
/// it: only what follows is decrypted and read.
pub proof fn lemma_open_ignores_key_id(key: TunnelKey, p: Seq<u8>, q: Seq<u8>)
    requires
        p.len() == q.len(),
        p.len() >= 44 ==> p.skip(4) == q.skip(4),
    ensures
        p.len() < 44 ==> opened(key, p) is None,
        opened(key, p) == opened(key, q),
        opened(key, p) is Some <==> p.len() >= 44 && (key.decrypted(
            p.skip(4),
        ) matches Some(plaintext) && protocol::parse_message(plaintext) is Some),
        open_error_text(key, p) == open_error_text(key, q),
{
}

/// The id in front of a sealed packet is that of the key it was sealed under.
pub proof fn lemma_sealed_begins_with_key_id(key: TunnelKey, msg: protocol::Message, packet: Seq<u8>)
    requires
        is_sealed(key, msg, packet),
    ensures
        packet.len() >= 44,
        packet.take(4) == key.key_id@,
{
}

/// A sealed payload of at most [`protocol::MAX_PAYLOAD_SIZE`] bytes stays below
/// the largest packet.
pub proof fn lemma_sealed_data_fits(
    key: TunnelKey,
    conn: protocol::ConnId,
    payload: Seq<u8>,
    packet: Seq<u8>,
)
    requires
        payload.len() <= protocol::MAX_PAYLOAD_SIZE,
        is_sealed(key, protocol::Message::Data { conn, payload }, packet),
    ensures
        packet.len() == payload.len() + 68,
        packet.len() <= protocol::MAX_PACKET_SIZE,
{
}

/// Whether bytes hold a four-byte number, least significant byte first, as word number
/// `i`.
pub open spec fn is_word(key: Seq<u8>, i: int, w: u32) -> bool {
    w == key[4 * i] + 0x100 * key[4 * i + 1] + 0x1_0000 * key[4 * i + 2] + 0x100_0000 * key[4 * i
        + 3]
}

proof fn lemma_fold_words(a: Seq<u8>, b: Seq<u8>)
    requires
        a.len() == 4,
        b.len() == 4,
    ensures
        bytes::from_le32(seq![a[0] ^ b[0], a[1] ^ b[1], a[2] ^ b[2], a[3] ^ b[3]])
            == bytes::from_le32(a) ^ bytes::from_le32(b),
{
    let (a0, a1, a2, a3) = (a[0], a[1], a[2], a[3]);
    let (b0, b1, b2, b3) = (b[0], b[1], b[2], b[3]);
    assert(((a0 ^ b0) + 0x100 * (a1 ^ b1) + 0x1_0000 * (a2 ^ b2) + 0x100_0000 * (a3 ^ b3)) as u32
        == ((a0 + 0x100 * a1 + 0x1_0000 * a2 + 0x100_0000 * a3) as u32) ^ ((b0 + 0x100 * b1
        + 0x1_0000 * b2 + 0x100_0000 * b3) as u32)) by (bit_vector);
}

spec fn folded(key: Seq<u8>, n: int) -> Seq<u8>
    decreases n,
{
    if n <= 1 {
        key.take(4)
    } else {
        let f = folded(key, n - 1);
        seq![
            f[0] ^ key[4 * n - 4],
            f[1] ^ key[4 * n - 3],
            f[2] ^ key[4 * n - 2],
            f[3] ^ key[4 * n - 1],
        ]
    }
}

proof fn lemma_folded(key: Seq<u8>, n: int, w: u32)
    requires
        2 <= n <= 8,
        key.len() == 32,
        is_word(key, n - 1, w),
    ensures
        folded(key, n - 1).len() == 4,
        bytes::from_le32(folded(key, n)) == bytes::from_le32(folded(key, n - 1)) ^ w,
{
    let f = folded(key, n - 1);
    let word = key.subrange(4 * n - 4, 4 * n);
    lemma_fold_words(f, word);
    assert(folded(key, n) =~= seq![f[0] ^ word[0], f[1] ^ word[1], f[2] ^ word[2], f[3] ^ word[3]]);
    assert(bytes::from_le32(word) == w);
}

/// The id of a key is the exclusive or of its eight words, multiplied by a constant
/// modulo 2^32: every byte of the key has its part in it.
pub proof fn lemma_key_id_of_words(key: Seq<u8>, words: Seq<u32>)
    requires
        key.len() == 32,
        words.len() == 8,
        forall|i: int| 0 <= i < 8 ==> is_word(key, i, #[trigger] words[i]),
    ensures
        ({
            let x = words[0] ^ words[1] ^ words[2] ^ words[3] ^ words[4] ^ words[5] ^ words[6]
                ^ words[7];
            let id = key_id_of(key);
            &&& id.len() == 4
            &&& id[0] + 0x100 * id[1] + 0x1_0000 * id[2] + 0x100_0000 * id[3] == (x * 0x9E37_79B9)
                % 0x1_0000_0000
        }),
{
    reveal_with_fuel(folded, 9);
    assert(is_word(key, 0, words[0]));
    assert(bytes::from_le32(key.take(4)) == words[0]);
    lemma_folded(key, 2, words[1]);
    lemma_folded(key, 3, words[2]);
    lemma_folded(key, 4, words[3]);
    lemma_folded(key, 5, words[4]);
    lemma_folded(key, 6, words[5]);
    lemma_folded(key, 7, words[6]);
    lemma_folded(key, 8, words[7]);
    let columns = seq![
        key_column(key, 0),
        key_column(key, 1),
        key_column(key, 2),
        key_column(key, 3),
    ];
    assert(columns =~= folded(key, 8));
    bytes::lemma_byte_order(
        0,
        ((bytes::from_le32(columns) * 0x9E37_79B9) % 0x1_0000_0000) as u32,
        0,
    );
}

/// Why a packet does not open is one thing, and is told in its words: it is too short,
/// or the cipher does not accept it, or what it holds is no message.
pub proof fn lemma_one_open_error(e: CryptoError, key: TunnelKey, packet: Seq<u8>)
    requires
        is_open_error(e, key, packet),
    ensures
        e is TooShort <==> packet.len() < 44,
        e is DecryptionFailed <==> packet.len() >= 44 && key.decrypted(packet.skip(4)) is None,
        e is Codec <==> packet.len() >= 44 && key.decrypted(packet.skip(4)) is Some,
        e.text() == open_error_text(key, packet),
{
}

/// A sealed message is made of the id of its key, and behind it twenty-four bytes of
/// nonce and what the cipher makes of its wire form under that nonce.
pub proof fn lemma_sealed_parts(key: TunnelKey, msg: protocol::Message, packet: Seq<u8>)
    requires
        is_sealed(key, msg, packet),
    ensures
        packet.len() == protocol::message_bytes(msg).len() + 44,
        packet.take(4) == key.key_id@,
        packet.skip(28) == cipher::xchacha20poly1305_seal(
            key.secret(),
            packet.subrange(4, 28),
            protocol::message_bytes(msg),
        ),
{
    protocol::lemma_message_len(msg);
    assert(packet.skip(4).skip(24) =~= packet.skip(28));
    assert(packet.skip(4).take(24) =~= packet.subrange(4, 28));
}

/// What a packet holds depends on three parts of it, and on every byte behind the key
/// id: twenty-four bytes of nonce, and behind them what the cipher opens, which has to
/// be the wire form of a message, whatever follows it.
pub proof fn lemma_opened_parts(key: TunnelKey, packet: Seq<u8>)
    ensures
        packet.len() < 44 ==> opened(key, packet) is None,
        packet.len() >= 44 ==> opened(key, packet) == match cipher::xchacha20poly1305_open(
            key.secret(),
            packet.subrange(4, 28),
            packet.subrange(28, packet.len() as int),
        ) {
            Some(plaintext) => protocol::parse_message(plaintext),
            None => None,
        },
{
    if packet.len() >= 44 {
        assert(packet.skip(4).take(24) =~= packet.subrange(4, 28));
        assert(packet.skip(4).skip(24) =~= packet.subrange(28, packet.len() as int));
    }
}

/// A packet without a key id is decrypted from its first twenty-four bytes, the nonce,
/// and all the others, if they are at least those of a tag.
pub proof fn lemma_decrypted_parts(key: TunnelKey, packet: Seq<u8>)
    ensures
        packet.len() < 40 ==> key.decrypted(packet) is None,
        packet.len() >= 40 ==> key.decrypted(packet) == cipher::xchacha20poly1305_open(
            key.secret(),
            packet.subrange(0, 24),
            packet.subrange(24, packet.len() as int),
        ),
{
    if packet.len() >= 40 {
        assert(packet.take(24) =~= packet.subrange(0, 24));
        assert(packet.skip(24) =~= packet.subrange(24, packet.len() as int));
    }
}

} // verus!
