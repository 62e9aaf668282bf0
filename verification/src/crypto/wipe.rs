//! Overwriting secrets once they are no longer needed.

use vstd::prelude::*;
use zeroize::Zeroize;

verus! {

/// Calls `zeroize::Zeroize::zeroize` on a 32-byte secret. Trusted: every byte
/// is zero afterwards, as the crate documents.
#[verifier::external_body]
pub(crate) fn wipe32(secret: &mut [u8; 32])
    ensures
        final(secret)@ == Seq::new(32, |i: int| 0u8),
{
    secret.zeroize();
}

/// Calls `zeroize::Zeroize::zeroize` on a 64-byte secret. Trusted: every byte
/// is zero afterwards.
#[verifier::external_body]
pub(crate) fn wipe64(secret: &mut [u8; 64])
    ensures
        final(secret)@ == Seq::new(64, |i: int| 0u8),
{
    secret.zeroize();
}

} // verus!
