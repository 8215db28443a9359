//! The calls into the cipher and into the random generator.

use vstd::prelude::*;
use chacha20poly1305::aead::{Aead, KeyInit};
use chacha20poly1305::{XChaCha20Poly1305, XNonce};
use rand::RngCore;

verus! {

/// Size of the XChaCha20-Poly1305 nonce.
pub const NONCE_SIZE: usize = 24;

/// Size of the AEAD authentication tag.
pub const TAG_SIZE: usize = 16;

/// An error of the cipher. It says nothing of its cause.
#[verifier::external_type_specification]
#[verifier::external_body]
pub struct ExAeadError(chacha20poly1305::Error);

/// What XChaCha20-Poly1305 makes of a plaintext, under a key and a nonce and
/// without associated data: the ciphertext, then the tag.
pub uninterp spec fn xchacha20poly1305_seal(
    key: Seq<u8>,
    nonce: Seq<u8>,
    plaintext: Seq<u8>,
) -> Seq<u8>;

/// The plaintext that XChaCha20-Poly1305 finds in a ciphertext and its tag, under
/// a key and a nonce and without associated data, if the tag is the right one.
pub uninterp spec fn xchacha20poly1305_open(
    key: Seq<u8>,
    nonce: Seq<u8>,
    ciphertext: Seq<u8>,
) -> Option<Seq<u8>>;

/// The lengths that the cipher can process: as many blocks of 64 bytes as its
/// 32-bit counter has left behind the first two.
pub open spec fn cipher_takes(len: nat) -> bool {
    len <= 274_877_906_816
}

/// The lengths that the cipher turns down with an error.
pub open spec fn cipher_refuses(len: nat) -> bool {
    len >= 274_877_906_880
}

/// The lengths for which the cipher returns at all: between those that it takes
/// and those that it refuses its counter would run out on the way.
pub open spec fn cipher_returns(len: nat) -> bool {
    cipher_takes(len) || cipher_refuses(len)
}

/// Whether the cipher returns for a plaintext of some length.
pub fn returns_for(len: usize) -> (r: bool)
    ensures
        r == cipher_returns(len as nat),
{
    let len: u64 = len as u64;
    len <= 274_877_906_816 || len >= 274_877_906_880
}

/// Whether the last sixteen bytes of `sealed` are the only tag with which its
/// other bytes are accepted.
pub open spec fn tag_is_the_only_one(key: Seq<u8>, nonce: Seq<u8>, sealed: Seq<u8>) -> bool {
    forall|tag: Seq<u8>| #![trigger sealed.take(sealed.len() - 16) + tag]
        tag.len() == 16 && tag != sealed.skip(sealed.len() - 16)
        ==> xchacha20poly1305_open(key, nonce, sealed.take(sealed.len() - 16) + tag) is None
}

/// The 32 secret bytes of a key. They cannot be read back.
#[derive(Clone, Copy)]
pub struct CipherKey {
    secret: [u8; 32],
}

impl View for CipherKey {
    type V = Seq<u8>;

    closed spec fn view(&self) -> Seq<u8> {
        self.secret@
    }
}

impl CipherKey {
    /// The key made of these bytes.
    pub fn new(secret: &[u8; 32]) -> (key: Self)
        ensures
            key@ == secret@,
    {
        CipherKey { secret: *secret }
    }

    /// Encrypts under a nonce. The result is the ciphertext, then its tag.
    pub(crate) fn encrypt(&self, nonce: &[u8; 24], plaintext: &[u8]) -> (r: Result<
        Vec<u8>,
        chacha20poly1305::Error,
    >)
        requires
            cipher_returns(plaintext@.len()),
        ensures
            r is Ok <==> cipher_takes(plaintext@.len()),
            r matches Ok(c) ==> {
                &&& c@ == xchacha20poly1305_seal(self@, nonce@, plaintext@)
                &&& c@.len() == plaintext@.len() + 16
                &&& xchacha20poly1305_open(self@, nonce@, c@) == Some(plaintext@)
                &&& tag_is_the_only_one(self@, nonce@, c@)
            },
    {
        aead_encrypt(&self.secret, nonce, plaintext)
    }

    /// Decrypts a ciphertext followed by its tag.
    pub(crate) fn decrypt(&self, nonce: &[u8; 24], ciphertext: &[u8]) -> (r: Result<
        Vec<u8>,
        chacha20poly1305::Error,
    >)
        requires
            ciphertext@.len() >= 16 ==> cipher_returns((ciphertext@.len() - 16) as nat),
        ensures
            match r {
                Ok(p) => {
                    &&& xchacha20poly1305_open(self@, nonce@, ciphertext@) == Some(p@)
                    &&& p@.len() + 16 == ciphertext@.len()
                    &&& cipher_takes(p@.len())
                    &&& xchacha20poly1305_seal(self@, nonce@, p@) == ciphertext@
                },
                Err(_) => xchacha20poly1305_open(self@, nonce@, ciphertext@) is None,
            },
    {
        aead_decrypt(&self.secret, nonce, ciphertext)
    }
}

/// A key is told by its bytes.
pub proof fn lemma_same_bytes_same_key(a: CipherKey, b: CipherKey)
    requires
        a@ == b@,
    ensures
        a == b,
{
    assert(a.secret =~= b.secret);
}

/// Calls `encrypt` of `XChaCha20Poly1305`, made from the key, without associated
/// data.
///
/// It fails only for a message that is too long for the cipher's counter. The
/// result is sixteen bytes longer than the plaintext; under the same key and
/// nonce it decrypts to the plaintext, and it does so with no other tag: a tag
/// is compared with the one that belongs to the bytes before it.
#[verifier::external_body]
fn aead_encrypt(key: &[u8; 32], nonce: &[u8; 24], plaintext: &[u8]) -> (r: Result<
    Vec<u8>,
    chacha20poly1305::Error,
>)
    requires
        cipher_returns(plaintext@.len()),
    ensures
        r is Ok <==> cipher_takes(plaintext@.len()),
        r matches Ok(c) ==> c@ == xchacha20poly1305_seal(key@, nonce@, plaintext@),
        r matches Ok(c) ==> c@.len() == plaintext@.len() + 16,
        r matches Ok(c) ==> xchacha20poly1305_open(key@, nonce@, c@) == Some(plaintext@),
        r matches Ok(c) ==> tag_is_the_only_one(key@, nonce@, c@),
{
    XChaCha20Poly1305::new(key.into()).encrypt(XNonce::from_slice(nonce), plaintext)
}

/// Calls `decrypt` of `XChaCha20Poly1305`, made from the key, without associated
/// data.
///
/// It fails on fewer bytes than a tag has, on a message that is too long for the
/// cipher's counter, and where the tag is not the right one. A plaintext that
/// comes out is sixteen bytes shorter, and encrypting it under the same key and
/// nonce gives the ciphertext again.
#[verifier::external_body]
fn aead_decrypt(key: &[u8; 32], nonce: &[u8; 24], ciphertext: &[u8]) -> (r: Result<
    Vec<u8>,
    chacha20poly1305::Error,
>)
    requires
        ciphertext@.len() >= 16 ==> cipher_returns((ciphertext@.len() - 16) as nat),
    ensures
        r is Ok <==> xchacha20poly1305_open(key@, nonce@, ciphertext@) is Some,
        r matches Ok(p) ==> xchacha20poly1305_open(key@, nonce@, ciphertext@) == Some(p@),
        r matches Ok(p) ==> p@.len() + 16 == ciphertext@.len(),
        r matches Ok(p) ==> cipher_takes(p@.len()),
        r matches Ok(p) ==> xchacha20poly1305_seal(key@, nonce@, p@) == ciphertext@,
{
    XChaCha20Poly1305::new(key.into()).decrypt(XNonce::from_slice(nonce), ciphertext)
}

/// Calls `fill_bytes` of `rand::thread_rng()` on an array.
///
/// Nothing is claimed of the bytes: they are chosen by chance.
#[verifier::external_body]
pub(crate) fn random_bytes<const N: usize>() -> (bytes: [u8; N]) {
    let mut bytes = [0u8; N];
    rand::thread_rng().fill_bytes(&mut bytes);
    bytes
}

} // verus!
