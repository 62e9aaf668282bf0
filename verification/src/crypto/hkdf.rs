//! HKDF-SHA256 key derivation, as computed by the `hkdf` crate.

use vstd::prelude::*;
use crate::protocol::wire::copy_array;

verus! {

/// HKDF-SHA256: extract with `salt` (none means the all-zero salt) from
/// `ikm`, then expand with `info` to `len` bytes.
pub uninterp spec fn hkdf_sha256(salt: Option<Seq<u8>>, ikm: Seq<u8>, info: Seq<u8>, len: nat) -> Seq<u8>;

/// The view of an optional salt.
pub open spec fn salt_view(salt: Option<&[u8]>) -> Option<Seq<u8>> {
    match salt {
        Some(s) => Some(s@),
        None => None,
    }
}

/// Calls `hkdf::Hkdf::<Sha256>::new(salt, ikm)` and `expand(info, ..)` into a
/// buffer of `len` bytes. Trusted: the bytes are `hkdf_sha256` of the
/// arguments. `expand` fails only for outputs longer than 255 hash lengths,
/// which `requires` rules out.
#[verifier::external_body]
pub(crate) fn hkdf_sha256_expand(salt: Option<&[u8]>, ikm: &[u8], info: &[u8], len: usize) -> (r: Vec<u8>)
    requires
        len <= 255 * 32,
    ensures
        r@ == hkdf_sha256(salt_view(salt), ikm@, info@, len as nat),
        r@.len() == len,
{
    let mut okm = vec![0u8; len];
    let _ = hkdf::Hkdf::<sha2::Sha256>::new(salt, ikm).expand(info, &mut okm);
    okm
}

/// HKDF-SHA256 into a 32-byte key.
pub fn hkdf_32(salt: Option<&[u8]>, ikm: &[u8], info: &[u8]) -> (r: [u8; 32])
    ensures
        r@ == hkdf_sha256(salt_view(salt), ikm@, info@, 32),
{
    let v = hkdf_sha256_expand(salt, ikm, info, 32);
    let r: [u8; 32] = copy_array::<32>(v.as_slice(), 0);
    assert(v@.subrange(0, 32) =~= v@);
    r
}

/// Derives a 32-byte key from an initial secret, an optional salt and an info
/// string. Never fails: HKDF-SHA256 can always produce 32 bytes.
pub fn derive_key(shared_secret: &[u8], salt: Option<&[u8]>, info: &[u8]) -> (r: Result<[u8; 32], &'static str>)
    ensures
        r matches Ok(k) && k@ == hkdf_sha256(salt_view(salt), shared_secret@, info@, 32),
{
    Ok(hkdf_32(salt, shared_secret, info))
}

} // verus!
