//! X25519 Diffie-Hellman, as computed by `x25519_dalek::x25519`.

use vstd::prelude::*;

verus! {

/// The X25519 function: scalar `k` (clamped) times the curve point `u`.
pub uninterp spec fn x25519_spec(k: Seq<u8>, u: Seq<u8>) -> Seq<u8>;

/// The X25519 base point (the u-coordinate 9).
pub open spec fn basepoint() -> Seq<u8> {
    seq![9u8] + Seq::new(31, |i: int| 0u8)
}

/// The X25519 public key of a secret.
pub open spec fn x25519_public(secret: Seq<u8>) -> Seq<u8> {
    x25519_spec(secret, basepoint())
}

/// Calls `x25519_dalek::x25519`. Trusted: the result is the X25519 function
/// of its arguments, named `x25519_spec`, and two parties who each apply
/// their secret to the other's public key reach the same value (the crate
/// documents exactly this exchange).
#[verifier::external_body]
pub(crate) fn x25519(k: &[u8; 32], u: &[u8; 32]) -> (r: [u8; 32])
    ensures
        r@ == x25519_spec(k@, u@),
        forall|b: Seq<u8>|
            b.len() == 32 && u@ == #[trigger] x25519_public(b) ==> r@ == x25519_spec(b, x25519_public(k@)),
{
    x25519_dalek::x25519(*k, *u)
}

/// The public key of `secret`, computed as the X25519 function at the base point.
pub fn public_key_of(secret: &[u8; 32]) -> (r: [u8; 32])
    ensures
        r@ == x25519_public(secret@),
{
    let mut base = [0u8; 32];
    base[0] = 9u8;
    assert(base@ =~= basepoint());
    x25519(secret, &base)
}

/// Calls `x25519_dalek::StaticSecret::random_from_rng(OsRng)` and returns its
/// bytes. Nothing is claimed of them: they are random.
#[verifier::external_body]
pub(crate) fn fresh_secret() -> [u8; 32] {
    x25519_dalek::StaticSecret::random_from_rng(rand_core::OsRng).to_bytes()
}

} // verus!
