//! ChaCha20-Poly1305 authenticated encryption with a fresh random nonce.

use vstd::prelude::*;
use chacha20poly1305::aead::Aead;
use chacha20poly1305::KeyInit;
use crate::crypto::random::os_random_12;

verus! {

/// ChaCha20-Poly1305 encryption (no associated data): the ciphertext with the
/// 16-byte tag appended, or `None` when the cipher refuses the input.
pub uninterp spec fn aead_seal(key: Seq<u8>, nonce: Seq<u8>, plaintext: Seq<u8>) -> Option<Seq<u8>>;

/// ChaCha20-Poly1305 decryption (no associated data): the plaintext, or
/// `None` when the tag does not authenticate the ciphertext.
pub uninterp spec fn aead_open(key: Seq<u8>, nonce: Seq<u8>, ciphertext: Seq<u8>) -> Option<Seq<u8>>;

/// Longest plaintext the cipher accepts, in bytes, plus one.
pub open spec fn aead_plaintext_bound() -> int {
    64int * 0xffff_ffff
}

/// Calls `ChaCha20Poly1305::new(key).encrypt(nonce, plaintext)`. Trusted, as
/// the crate's source shows: the result is `aead_seal` of the arguments; it
/// fails exactly when the plaintext has `aead_plaintext_bound()` bytes or more;
/// the ciphertext is 16 bytes longer than the plaintext; and decrypting it
/// with the same key and nonce gives the plaintext back.
#[verifier::external_body]
pub(crate) fn chacha_seal(key: &[u8; 32], nonce: &[u8; 12], plaintext: &[u8]) -> (r: Option<Vec<u8>>)
    ensures
        r is Some <==> aead_seal(key@, nonce@, plaintext@) is Some,
        r is Some <==> plaintext@.len() < aead_plaintext_bound(),
        r matches Some(c) ==> aead_seal(key@, nonce@, plaintext@) == Some(c@),
        r matches Some(c) ==> c@.len() == plaintext@.len() + 16,
        r matches Some(c) ==> aead_open(key@, nonce@, c@) == Some(plaintext@),
{
    let cipher = chacha20poly1305::ChaCha20Poly1305::new(key.into());
    cipher.encrypt(nonce.into(), plaintext).ok()
}

/// Calls `ChaCha20Poly1305::new(key).decrypt(nonce, ciphertext)`. Trusted:
/// the result is `aead_open` of the arguments.
#[verifier::external_body]
pub(crate) fn chacha_open(key: &[u8; 32], nonce: &[u8; 12], ciphertext: &[u8]) -> (r: Option<Vec<u8>>)
    ensures
        r is Some <==> aead_open(key@, nonce@, ciphertext@) is Some,
        r matches Some(p) ==> aead_open(key@, nonce@, ciphertext@) == Some(p@),
{
    let cipher = chacha20poly1305::ChaCha20Poly1305::new(key.into());
    cipher.decrypt(nonce.into(), ciphertext).ok()
}

/// Encrypts `bytes` under `key` with a fresh random nonce; returns the
/// ciphertext and the nonce.
pub fn encrypt(bytes: &[u8], key: &[u8; 32]) -> (r: Result<(Vec<u8>, [u8; 12]), String>)
    ensures
        r is Ok <==> bytes@.len() < aead_plaintext_bound(),
        r matches Ok((c, n)) ==> aead_seal(key@, n@, bytes@) == Some(c@),
        r matches Ok((c, n)) ==> c@.len() == bytes@.len() + 16,
        r matches Ok((c, n)) ==> aead_open(key@, n@, c@) == Some(bytes@),
{
    let nonce_bytes = os_random_12();
    match chacha_seal(key, &nonce_bytes, bytes) {
        Some(c) => Ok((c, nonce_bytes)),
        None => Err("encryption failed".to_string()),
    }
}

/// Decrypts `cipher_bytes` under `key` and `nonce_bytes`.
pub fn decrypt(cipher_bytes: &[u8], nonce_bytes: &[u8; 12], key: &[u8; 32]) -> (r: Result<Vec<u8>, String>)
    ensures
        r is Ok <==> aead_open(key@, nonce_bytes@, cipher_bytes@) is Some,
        r matches Ok(p) ==> aead_open(key@, nonce_bytes@, cipher_bytes@) == Some(p@),
{
    match chacha_open(key, nonce_bytes, cipher_bytes) {
        Some(p) => Ok(p),
        None => Err("decryption failed: wrong key, wrong nonce, or corrupted/tampered data".to_string()),
    }
}

} // verus!
