//! Randomness from the operating system and the thread-local generator.

use vstd::prelude::*;
use rand::RngExt;
use rand_core::RngCore;

verus! {

/// Calls `rand::rng().random::<u128>()`. Trusted only for being a `u128`:
/// the value is random and nothing is claimed of it.
#[verifier::external_body]
pub(crate) fn random_u128() -> u128 {
    rand::rng().random::<u128>()
}

/// Calls `rand_core::OsRng.fill_bytes` on a 12-byte buffer. Nothing is
/// claimed of the bytes beyond their count.
#[verifier::external_body]
pub(crate) fn os_random_12() -> [u8; 12] {
    let mut b = [0u8; 12];
    rand_core::OsRng.fill_bytes(&mut b);
    b
}

/// Calls `rand_core::OsRng.fill_bytes` on a 32-byte buffer. Nothing is
/// claimed of the bytes beyond their count.
#[verifier::external_body]
pub(crate) fn os_random_32() -> [u8; 32] {
    let mut b = [0u8; 32];
    rand_core::OsRng.fill_bytes(&mut b);
    b
}

} // verus!
