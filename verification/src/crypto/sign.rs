//! Ed25519 signatures, as computed by `ed25519_dalek`.

use vstd::prelude::*;
use ed25519_dalek::{Signer, Verifier};

verus! {

/// The Ed25519 public key (compressed point) of a 32-byte secret key.
pub uninterp spec fn ed25519_public(secret: Seq<u8>) -> Seq<u8>;

/// The Ed25519 signature of `msg` under a 32-byte secret key.
pub uninterp spec fn ed25519_signature(secret: Seq<u8>, msg: Seq<u8>) -> Seq<u8>;

/// Whether `public` decompresses to a curve point.
pub uninterp spec fn ed25519_point_valid(public: Seq<u8>) -> bool;

/// Whether `sig` is a valid signature of `msg` under `public`.
pub uninterp spec fn ed25519_verifies(public: Seq<u8>, msg: Seq<u8>, sig: Seq<u8>) -> bool;

/// Calls `SigningKey::from_bytes(secret).verifying_key().to_bytes()`.
/// Trusted: the bytes are `ed25519_public` of the secret, and they are a
/// valid compressed point (the key is computed as a point).
#[verifier::external_body]
pub(crate) fn ed25519_public_key(secret: &[u8; 32]) -> (r: [u8; 32])
    ensures
        r@ == ed25519_public(secret@),
        ed25519_point_valid(r@),
{
    ed25519_dalek::SigningKey::from_bytes(secret).verifying_key().to_bytes()
}

/// Calls `SigningKey::from_bytes(secret).sign(msg).to_bytes()`. Trusted: the
/// signature is `ed25519_signature` of the arguments (Ed25519 signing is
/// deterministic) and verifies under the matching public key, as the crate
/// documents for every signature it makes.
#[verifier::external_body]
pub(crate) fn ed25519_sign(secret: &[u8; 32], msg: &[u8]) -> (r: [u8; 64])
    ensures
        r@ == ed25519_signature(secret@, msg@),
        ed25519_verifies(ed25519_public(secret@), msg@, r@),
{
    ed25519_dalek::SigningKey::from_bytes(secret).sign(msg).to_bytes()
}

/// Calls `VerifyingKey::from_bytes(public)`. Trusted: success is
/// `ed25519_point_valid`.
#[verifier::external_body]
pub(crate) fn ed25519_valid_point(public: &[u8; 32]) -> (r: bool)
    ensures
        r == ed25519_point_valid(public@),
{
    ed25519_dalek::VerifyingKey::from_bytes(public).is_ok()
}

/// Calls `VerifyingKey::from_bytes(public)` and then `verify(msg, sig)`.
/// Trusted: the answer is `ed25519_verifies`, and an invalid point verifies
/// nothing.
#[verifier::external_body]
pub(crate) fn ed25519_check(public: &[u8; 32], msg: &[u8], sig: &[u8; 64]) -> (r: bool)
    ensures
        r == ed25519_verifies(public@, msg@, sig@),
        !ed25519_point_valid(public@) ==> !r,
{
    match ed25519_dalek::VerifyingKey::from_bytes(public) {
        Ok(vk) => vk.verify(msg, &ed25519_dalek::Signature::from_bytes(sig)).is_ok(),
        Err(_) => false,
    }
}

} // verus!
