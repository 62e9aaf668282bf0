//! Password-based encryption: Argon2id key derivation, then ChaCha20-Poly1305.

use vstd::prelude::*;
use crate::crypto::cipher::{self, aead_open, aead_seal, aead_plaintext_bound};
use crate::crypto::random::os_random_32;
use crate::crypto::wipe::wipe32;
use crate::protocol::wire::{copy_array, copy_tail, push_all};

verus! {

/// Argon2id (v0x13, 64 MiB, 3 passes, 4 lanes) of a password and salt, 32
/// bytes long; `None` when the crate refuses the password.
pub uninterp spec fn argon2id_key(password: Seq<u8>, salt: Seq<u8>) -> Option<Seq<u8>>;

/// Calls `Argon2::new(Argon2id, V0x13, Params::new(65536, 3, 4, Some(32)))`
/// and `hash_password_into(password, salt, ..)`. Trusted: the key is
/// `argon2id_key` of the arguments; as the crate's source shows, with these
/// parameters and a 32-byte salt it fails exactly on passwords longer than
/// `0xFFFF_FFFF` bytes.
#[verifier::external_body]
fn argon2id_32(password: &[u8], salt: &[u8; 32]) -> (r: Option<[u8; 32]>)
    ensures
        r is Some <==> password@.len() <= 0xffff_ffff,
        r is Some <==> argon2id_key(password@, salt@) is Some,
        r matches Some(k) ==> argon2id_key(password@, salt@) == Some(k@),
{
    let params = argon2::Params::new(65_536, 3, 4, Some(32)).ok()?;
    let argon = argon2::Argon2::new(argon2::Algorithm::Argon2id, argon2::Version::V0x13, params);
    let mut key = [0u8; 32];
    argon.hash_password_into(password, salt, &mut key).ok()?;
    Some(key)
}

/// What decrypting a password-protected blob yields:
/// `[salt: 32] [nonce: 12] [ciphertext]`, at least 60 bytes long.
pub open spec fn open_with_password(encrypted: Seq<u8>, password: Seq<u8>) -> Option<Seq<u8>> {
    if encrypted.len() < 60 {
        None
    } else {
        match argon2id_key(password, encrypted.subrange(0, 32)) {
            None => None,
            Some(key) => aead_open(key, encrypted.subrange(32, 44), encrypted.subrange(44, encrypted.len() as int)),
        }
    }
}

/// `out` is `plaintext` sealed under `password`: its first 32 bytes are the
/// salt, the next 12 the nonce, and the rest the ChaCha20-Poly1305 seal of
/// the plaintext under the Argon2id key of the password and that salt.
pub open spec fn sealed_with_password(out: Seq<u8>, plaintext: Seq<u8>, password: Seq<u8>) -> bool {
    &&& out.len() >= 44
    &&& argon2id_key(password, out.subrange(0, 32)) matches Some(key)
    &&& aead_seal(key, out.subrange(32, 44), plaintext) == Some(out.subrange(44, out.len() as int))
}

/// Encrypts `plaintext` under a key derived from `password` and a fresh
/// random salt; the output is `salt || nonce || ciphertext`. Decrypting the
/// output with the same password gives the plaintext back.
pub fn encrypt_with_password(plaintext: &[u8], password: &[u8]) -> (r: Result<Vec<u8>, String>)
    ensures
        r is Ok <==> password@.len() <= 0xffff_ffff && plaintext@.len() < aead_plaintext_bound(),
        r matches Ok(out) ==> out@.len() == plaintext@.len() + 60,
        r matches Ok(out) ==> sealed_with_password(out@, plaintext@, password@),
        r matches Ok(out) ==> open_with_password(out@, password@) == Some(plaintext@),
{
    let salt = os_random_32();
    let mut key = match argon2id_32(password, &salt) {
        Some(k) => k,
        None => return Err("argon2id key derivation failed".to_string()),
    };
    let (ciphertext, nonce) = match cipher::encrypt(plaintext, &key) {
        Ok(v) => v,
        Err(e) => {
            wipe32(&mut key);
            return Err(e);
        },
    };
    wipe32(&mut key);
    let mut output: Vec<u8> = Vec::new();
    push_all(&mut output, salt.as_slice());
    push_all(&mut output, nonce.as_slice());
    push_all(&mut output, ciphertext.as_slice());
    proof {
        let o = output@;
        assert(o.subrange(0, 32) =~= salt@);
        assert(o.subrange(32, 44) =~= nonce@);
        assert(o.subrange(44, o.len() as int) =~= ciphertext@);
    }
    Ok(output)
}

/// Decrypts bytes produced by `encrypt_with_password`.
pub fn decrypt_with_password(encrypted: &[u8], password: &[u8]) -> (r: Result<Vec<u8>, String>)
    ensures
        r is Ok <==> open_with_password(encrypted@, password@) is Some,
        r matches Ok(p) ==> open_with_password(encrypted@, password@) == Some(p@),
{
    if encrypted.len() < 44 + 16 {
        return Err("encrypted data too short".to_string());
    }
    let salt: [u8; 32] = copy_array::<32>(encrypted, 0);
    let nonce: [u8; 12] = copy_array::<12>(encrypted, 32);
    let ciphertext = copy_tail(encrypted, 44);
    let mut key = match argon2id_32(password, &salt) {
        Some(k) => k,
        None => return Err("argon2id key derivation failed".to_string()),
    };
    let result = cipher::decrypt(ciphertext.as_slice(), &nonce, &key);
    wipe32(&mut key);
    result
}

} // verus!
