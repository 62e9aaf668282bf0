//! Text encrypted under a shared secret: the ChaCha20-Poly1305 key is
//! derived from the secret with HKDF-SHA256 (salt `cipher-salt`, info
//! `encryption-key`), and the text is sealed under a fresh random nonce.

use vstd::prelude::*;
use vstd::string::StringSliceAdditionalSpecFns;
use vstd::utf8::{valid_utf8, decode_utf8};
use crate::crypto::cipher::{aead_seal, aead_open, aead_plaintext_bound};
use crate::crypto::hkdf::{hkdf_sha256, hkdf_32, salt_view};
use crate::crypto::labels::{encryption_key_label, encryption_key_bytes, cipher_salt_label, cipher_salt_bytes};
use crate::protocol::message::string_from_utf8;

verus! {

/// The cipher key derived from a shared secret and a salt.
pub open spec fn cipher_key_of(shared_secret: Seq<u8>, salt: Option<Seq<u8>>) -> Seq<u8> {
    hkdf_sha256(salt, shared_secret, encryption_key_label(), 32)
}

/// The key that `encrypt` and `decrypt` use for a shared secret.
pub open spec fn text_key(shared_secret: Seq<u8>) -> Seq<u8> {
    cipher_key_of(shared_secret, Some(cipher_salt_label()))
}

/// The cipher key for a shared secret and an optional salt.
fn compute_cipher(shared_secret: &[u8], salt: Option<&[u8]>) -> (r: [u8; 32])
    ensures
        r@ == cipher_key_of(shared_secret@, salt_view(salt)),
{
    let info = encryption_key_bytes();
    hkdf_32(salt, shared_secret, info.as_slice())
}

/// Encrypts `plaintext` (its UTF-8 bytes) under `shared_secret`; returns the
/// ciphertext and the nonce.
pub fn encrypt(plaintext: &str, shared_secret: &[u8]) -> (r: Result<(Vec<u8>, [u8; 12]), &'static str>)
    ensures
        r is Ok <==> plaintext.spec_bytes().len() < aead_plaintext_bound(),
        r matches Ok((c, n)) ==> aead_seal(text_key(shared_secret@), n@, plaintext.spec_bytes()) == Some(c@),
        r matches Ok((c, n)) ==> aead_open(text_key(shared_secret@), n@, c@) == Some(plaintext.spec_bytes()),
{
    let salt = cipher_salt_bytes();
    let key = compute_cipher(shared_secret, Some(salt.as_slice()));
    match crate::crypto::cipher::encrypt(plaintext.as_bytes(), &key) {
        Ok(v) => Ok(v),
        Err(_) => Err("encryption failed"),
    }
}

/// Decrypts `ciphertext` under `shared_secret` and `nonce_bytes` into text;
/// fails when the ciphertext does not authenticate or is not UTF-8 text.
pub fn decrypt(ciphertext: &[u8], nonce_bytes: &[u8; 12], shared_secret: &[u8]) -> (r: Result<String, &'static str>)
    ensures
        match aead_open(text_key(shared_secret@), nonce_bytes@, ciphertext@) {
            None => r is Err,
            Some(p) => (r is Ok <==> valid_utf8(p)) && (r matches Ok(s) ==> s@ == decode_utf8(p)),
        },
{
    let salt = cipher_salt_bytes();
    let key = compute_cipher(shared_secret, Some(salt.as_slice()));
    let bytes = match crate::crypto::cipher::decrypt(ciphertext, nonce_bytes, &key) {
        Ok(b) => b,
        Err(_) => return Err("decryption failed: wrong key, wrong nonce, or corrupted/tampered data"),
    };
    match string_from_utf8(bytes) {
        Some(s) => Ok(s),
        None => Err("decrypted data is not valid UTF-8"),
    }
}

} // verus!
