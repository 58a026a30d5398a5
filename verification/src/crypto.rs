//! AES-256-GCM sealing of small secrets under a caller-provided 32-byte key.
//!
//! A sealed message is the 12-byte nonce followed by the ciphertext and the
//! 16-byte authentication tag.

use ring::rand::SecureRandom;
use vstd::prelude::*;

verus! {

/// Length in bytes of the nonce that prefixes every sealed message.
pub const NONCE_LEN: usize = 12;

/// Length in bytes of the authentication tag that ends every sealed message.
pub const TAG_LEN: usize = 16;

/// Why sealing or opening a message failed.
#[derive(Clone, Copy, Debug, PartialEq, Eq, Structural)]
pub enum CryptoError {
    /// The system random number generator could not produce a nonce.
    RngFailed,
    /// The cipher refused to seal the plaintext.
    EncryptionFailed,
    /// The message is shorter than a nonce.
    CiphertextTooShort,
    /// The message was not sealed under this key, or was altered.
    DecryptionFailed,
}

impl CryptoError {
    /// A short description of the failure.
    pub fn message(&self) -> (s: &'static str)
        ensures
            s@ == match *self {
                CryptoError::RngFailed => "RNG failed"@,
                CryptoError::EncryptionFailed => "Encryption failed"@,
                CryptoError::CiphertextTooShort => "Ciphertext too short"@,
                CryptoError::DecryptionFailed => "Decryption failed"@,
            },
    {
        match self {
            CryptoError::RngFailed => "RNG failed",
            CryptoError::EncryptionFailed => "Encryption failed",
            CryptoError::CiphertextTooShort => "Ciphertext too short",
            CryptoError::DecryptionFailed => "Decryption failed",
        }
    }
}

/// `ring::error::Unspecified`, the error of every operation of `ring`. It
/// says nothing of the cause, and nothing is read from it here.
#[verifier::external_type_specification]
#[verifier::external_body]
pub struct ExUnspecified(ring::error::Unspecified);

/// What `ring`'s AES-256-GCM produces when it seals `plaintext` under `key`
/// and `nonce` with empty associated data: the ciphertext followed by the
/// tag, or `None` where the cipher refuses the input.
pub uninterp spec fn aes_256_gcm_seal(key: Seq<u8>, nonce: Seq<u8>, plaintext: Seq<u8>) -> Option<Seq<u8>>;

/// What `ring`'s AES-256-GCM recovers when it opens `sealed` (ciphertext
/// followed by tag) under `key` and `nonce` with empty associated data, or
/// `None` where authentication fails.
pub uninterp spec fn aes_256_gcm_open(key: Seq<u8>, nonce: Seq<u8>, sealed: Seq<u8>) -> Option<Seq<u8>>;

/// Calls `ring::rand::SecureRandom::fill` on a `SystemRandom` for twelve
/// bytes. Nothing is claimed of the bytes: they differ from call to call.
#[verifier::external_body]
fn fresh_nonce() -> (r: Result<[u8; 12], ring::error::Unspecified>)
{
    let mut nonce = [0u8; 12];
    ring::rand::SystemRandom::new().fill(&mut nonce)?;
    Ok(nonce)
}

/// Calls `ring::aead::LessSafeKey::seal_in_place_append_tag` with an
/// AES-256-GCM key built from `key`, the given nonce and no associated data.
///
/// Trusted: the outcome is the one named by [`aes_256_gcm_seal`]; a sealed
/// message is sixteen bytes (the tag) longer than its plaintext; and opening
/// it under the same key and nonce gives the plaintext back.
#[verifier::external_body]
fn seal_bytes(key: &[u8; 32], nonce: [u8; 12], plaintext: &[u8]) -> (r: Result<Vec<u8>, ring::error::Unspecified>)
    ensures
        match r {
            Ok(sealed) => {
                &&& aes_256_gcm_seal(key@, nonce@, plaintext@) == Some(sealed@)
                &&& sealed@.len() == plaintext@.len() + 16
                &&& aes_256_gcm_open(key@, nonce@, sealed@) == Some(plaintext@)
            },
            Err(_) => aes_256_gcm_seal(key@, nonce@, plaintext@) is None,
        },
{
    let unbound = ring::aead::UnboundKey::new(&ring::aead::AES_256_GCM, key)?;
    let sealing_key = ring::aead::LessSafeKey::new(unbound);
    let mut in_out = plaintext.to_vec();
    let nonce = ring::aead::Nonce::assume_unique_for_key(nonce);
    sealing_key.seal_in_place_append_tag(nonce, ring::aead::Aad::empty(), &mut in_out)?;
    Ok(in_out)
}

/// Calls `ring::aead::LessSafeKey::open_in_place` with an AES-256-GCM key
/// built from `key`, the given nonce and no associated data.
///
/// Trusted: the outcome is the one named by [`aes_256_gcm_open`].
#[verifier::external_body]
fn open_bytes(key: &[u8; 32], nonce: [u8; 12], sealed: &[u8]) -> (r: Result<Vec<u8>, ring::error::Unspecified>)
    ensures
        match r {
            Ok(plaintext) => aes_256_gcm_open(key@, nonce@, sealed@) == Some(plaintext@),
            Err(_) => aes_256_gcm_open(key@, nonce@, sealed@) is None,
        },
{
    let unbound = ring::aead::UnboundKey::new(&ring::aead::AES_256_GCM, key)?;
    let opening_key = ring::aead::LessSafeKey::new(unbound);
    let mut in_out = sealed.to_vec();
    let nonce = ring::aead::Nonce::assume_unique_for_key(nonce);
    let plaintext = opening_key.open_in_place(nonce, ring::aead::Aad::empty(), &mut in_out)?;
    Ok(plaintext.to_vec())
}

/// The result of opening `message` under `key`: the message must hold a
/// nonce, and what follows the nonce must authenticate.
pub open spec fn opened(key: Seq<u8>, message: Seq<u8>) -> Result<Seq<u8>, CryptoError> {
    if message.len() < 12 {
        Err(CryptoError::CiphertextTooShort)
    } else {
        match aes_256_gcm_open(key, message.take(12), message.skip(12)) {
            Some(plaintext) => Ok(plaintext),
            None => Err(CryptoError::DecryptionFailed),
        }
    }
}

/// The result of sealing `plaintext` under `key` with a given nonce.
pub open spec fn sealed_with(key: Seq<u8>, nonce: Seq<u8>, plaintext: Seq<u8>) -> Result<Seq<u8>, CryptoError> {
    match aes_256_gcm_seal(key, nonce, plaintext) {
        Some(body) => Ok(nonce + body),
        None => Err(CryptoError::EncryptionFailed),
    }
}

/// The byte view of a result that holds a vector.
pub open spec fn bytes_of(r: Result<Vec<u8>, CryptoError>) -> Result<Seq<u8>, CryptoError> {
    match r {
        Ok(v) => Ok(v@),
        Err(e) => Err(e),
    }
}

/// Seals `plaintext` under `key` with the given nonce and returns the nonce
/// followed by ciphertext and tag.
///
/// Whatever comes back opens again to `plaintext` under the same key, and is
/// 28 bytes longer than it.
pub fn encrypt_with_nonce(key: &[u8; 32], nonce: [u8; 12], plaintext: &[u8]) -> (r: Result<Vec<u8>, CryptoError>)
    ensures
        bytes_of(r) == sealed_with(key@, nonce@, plaintext@),
        r matches Ok(message) ==> {
            &&& message@.len() == plaintext@.len() + 28
            &&& opened(key@, message@) == Ok::<Seq<u8>, CryptoError>(plaintext@)
        },
{
    match seal_bytes(key, nonce, plaintext) {
        Ok(body) => {
            let mut message: Vec<u8> = Vec::new();
            let mut i: usize = 0;
            while i < 12
                invariant
                    i <= 12,
                    message@ == nonce@.take(i as int),
                decreases 12 - i,
            {
                message.push(nonce[i]);
                i += 1;
            }
            let mut body = body;
            message.append(&mut body);
            proof {
                let b = aes_256_gcm_seal(key@, nonce@, plaintext@).unwrap();
                assert(nonce@.take(12) == nonce@);
                assert(message@ == nonce@ + b);
                assert(message@.take(12) == nonce@);
                assert(message@.skip(12) == b);
            }
            Ok(message)
        },
        Err(_) => Err(CryptoError::EncryptionFailed),
    }
}

/// Seals `plaintext` under `key` with a fresh random nonce.
///
/// The nonce comes from the system random number generator, so two calls
/// differ; every message that comes back is the nonce it starts with
/// followed by the sealing of `plaintext` under that nonce, is 28 bytes
/// longer than `plaintext`, and decrypts to `plaintext` under `key`.
pub fn encrypt(key: &[u8; 32], plaintext: &[u8]) -> (r: Result<Vec<u8>, CryptoError>)
    ensures
        match r {
            Ok(message) => {
                &&& message@.len() == plaintext@.len() + 28
                &&& Ok::<Seq<u8>, CryptoError>(message@) == sealed_with(key@, message@.take(12), plaintext@)
                &&& opened(key@, message@) == Ok::<Seq<u8>, CryptoError>(plaintext@)
            },
            Err(e) => e == CryptoError::RngFailed || e == CryptoError::EncryptionFailed,
        },
{
    match fresh_nonce() {
        Ok(nonce) => {
            let r = encrypt_with_nonce(key, nonce, plaintext);
            proof {
                if r is Ok {
                    let b = aes_256_gcm_seal(key@, nonce@, plaintext@).unwrap();
                    assert(r->Ok_0@ == nonce@ + b);
                    assert(r->Ok_0@.take(12) == nonce@);
                }
            }
            r
        },
        Err(_) => Err(CryptoError::RngFailed),
    }
}

/// Opens a message made by [`encrypt`]: splits off the 12-byte nonce and
/// authenticates and decrypts the rest under `key`.
pub fn decrypt(key: &[u8; 32], ciphertext: &[u8]) -> (r: Result<Vec<u8>, CryptoError>)
    ensures
        bytes_of(r) == opened(key@, ciphertext@),
{
    if ciphertext.len() < 12 {
        return Err(CryptoError::CiphertextTooShort);
    }
    let mut nonce: [u8; 12] = [0u8; 12];
    let mut i: usize = 0;
    while i < 12
        invariant
            i <= 12,
            ciphertext@.len() >= 12,
            forall|j: int| 0 <= j < i ==> nonce@[j] == ciphertext@[j],
        decreases 12 - i,
    {
        nonce[i] = ciphertext[i];
        i += 1;
    }
    assert(nonce@ == ciphertext@.take(12));
    let sealed = vstd::slice::slice_subrange(ciphertext, 12, ciphertext.len());
    assert(sealed@ == ciphertext@.skip(12));
    match open_bytes(key, nonce, sealed) {
        Ok(plaintext) => Ok(plaintext),
        Err(_) => Err(CryptoError::DecryptionFailed),
    }
}

} // verus!
