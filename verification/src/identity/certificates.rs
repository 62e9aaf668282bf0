//! Device certificates: a device's two public keys signed by the master key.

use vstd::prelude::*;
use crate::crypto::sign::{ed25519_signature, ed25519_verifies, ed25519_point_valid, ed25519_valid_point};
use crate::identity::identity::{MasterKeyPair, UserID};
use crate::protocol::wire::{copy_array, push_all};

verus! {

#[derive(Copy, Clone)]
pub struct DeviceCertificate {
    pub device_ed25519_pubkey: [u8; 32],
    pub device_x25519_pubkey: [u8; 32],
    pub master_signature: [u8; 64],
}

/// Mathematical value of a certificate.
pub struct CertificateView {
    pub device_ed25519_pubkey: Seq<u8>,
    pub device_x25519_pubkey: Seq<u8>,
    pub master_signature: Seq<u8>,
}

impl View for DeviceCertificate {
    type V = CertificateView;

    open spec fn view(&self) -> CertificateView {
        CertificateView {
            device_ed25519_pubkey: self.device_ed25519_pubkey@,
            device_x25519_pubkey: self.device_x25519_pubkey@,
            master_signature: self.master_signature@,
        }
    }
}

/// The bytes the master key signs: both device keys.
pub open spec fn certificate_signed_data(ed: Seq<u8>, x: Seq<u8>) -> Seq<u8> {
    ed + x
}

/// Wire form (128 bytes): `[ed25519 key: 32] [x25519 key: 32] [signature: 64]`.
pub open spec fn certificate_wire(c: CertificateView) -> Seq<u8> {
    c.device_ed25519_pubkey + c.device_x25519_pubkey + c.master_signature
}

/// What decoding 128 or more bytes as a certificate yields: the Ed25519 key
/// must be a valid point; bytes past the first 128 are ignored.
pub open spec fn parse_certificate(b: Seq<u8>) -> Option<CertificateView> {
    if !ed25519_point_valid(b.subrange(0, 32)) {
        None
    } else {
        Some(
            CertificateView {
                device_ed25519_pubkey: b.subrange(0, 32),
                device_x25519_pubkey: b.subrange(32, 64),
                master_signature: b.subrange(64, 128),
            },
        )
    }
}

/// Whether a certificate carries the master's signature of its keys.
pub open spec fn certificate_valid(c: CertificateView, master_pubkey: Seq<u8>) -> bool {
    ed25519_verifies(master_pubkey, certificate_signed_data(c.device_ed25519_pubkey, c.device_x25519_pubkey), c.master_signature)
}

/// Decoding an encoded certificate gives it back when its Ed25519 key is a
/// valid point.
pub proof fn lemma_certificate_roundtrip(c: CertificateView)
    requires
        c.device_ed25519_pubkey.len() == 32,
        c.device_x25519_pubkey.len() == 32,
        c.master_signature.len() == 64,
        ed25519_point_valid(c.device_ed25519_pubkey),
    ensures
        certificate_wire(c).len() == 128,
        parse_certificate(certificate_wire(c)) == Some(c),
{
    let w = certificate_wire(c);
    assert(w.subrange(0, 32) =~= c.device_ed25519_pubkey);
    assert(w.subrange(32, 64) =~= c.device_x25519_pubkey);
    assert(w.subrange(64, 128) =~= c.master_signature);
}

impl DeviceCertificate {
    /// Certifies a device's keys with the master key. The Ed25519 key must
    /// be a valid point, as every Ed25519 public key is.
    pub fn new(master: &MasterKeyPair, device_ed25519_pubkey: [u8; 32], device_x25519_pubkey: [u8; 32]) -> (r: DeviceCertificate)
        requires
            ed25519_point_valid(device_ed25519_pubkey@),
        ensures
            r.device_ed25519_pubkey == device_ed25519_pubkey,
            r.device_x25519_pubkey == device_x25519_pubkey,
            r.master_signature@ == ed25519_signature(
                master.secret(),
                certificate_signed_data(device_ed25519_pubkey@, device_x25519_pubkey@),
            ),
            parse_certificate(certificate_wire(r@)) == Some(r@),
            master.well_formed() ==> certificate_valid(r@, master.public()),
    {
        let bytes = Self::signed_data(device_ed25519_pubkey, device_x25519_pubkey);
        let master_signature = master.sign(bytes.as_slice());
        let r = DeviceCertificate { device_ed25519_pubkey, device_x25519_pubkey, master_signature };
        proof {
            lemma_certificate_roundtrip(r@);
        }
        r
    }

    /// Certifies a device's keys with the master key when the Ed25519 key is
    /// a valid point; `None` otherwise.
    pub fn try_new(master: &MasterKeyPair, device_ed25519_pubkey: [u8; 32], device_x25519_pubkey: [u8; 32]) -> (r: Option<DeviceCertificate>)
        ensures
            r is Some <==> ed25519_point_valid(device_ed25519_pubkey@),
            r matches Some(c) ==> c.device_ed25519_pubkey == device_ed25519_pubkey
                && c.device_x25519_pubkey == device_x25519_pubkey
                && c.master_signature@ == ed25519_signature(
                    master.secret(),
                    certificate_signed_data(device_ed25519_pubkey@, device_x25519_pubkey@),
                ),
    {
        if ed25519_valid_point(&device_ed25519_pubkey) {
            Some(Self::new(master, device_ed25519_pubkey, device_x25519_pubkey))
        } else {
            None
        }
    }

    /// Whether the certificate is signed by `master_identity`.
    pub fn verify(&self, master_identity: &UserID) -> (r: bool)
        ensures
            r == certificate_valid(self@, master_identity.public_key@),
    {
        let bytes = Self::signed_data(self.device_ed25519_pubkey, self.device_x25519_pubkey);
        master_identity.verify(bytes.as_slice(), &self.master_signature)
    }

    fn signed_data(device_ed25519_pubkey: [u8; 32], device_x25519_pubkey: [u8; 32]) -> (r: Vec<u8>)
        ensures
            r@ == certificate_signed_data(device_ed25519_pubkey@, device_x25519_pubkey@),
    {
        let mut bytes: Vec<u8> = Vec::new();
        push_all(&mut bytes, device_ed25519_pubkey.as_slice());
        push_all(&mut bytes, device_x25519_pubkey.as_slice());
        bytes
    }

    pub fn serialize(&self) -> (r: Vec<u8>)
        ensures
            r@ == certificate_wire(self@),
    {
        let mut bytes: Vec<u8> = Vec::new();
        push_all(&mut bytes, self.device_ed25519_pubkey.as_slice());
        push_all(&mut bytes, self.device_x25519_pubkey.as_slice());
        push_all(&mut bytes, self.master_signature.as_slice());
        bytes
    }

    pub fn from_serialized(bytes: Vec<u8>) -> (r: Result<DeviceCertificate, &'static str>)
        requires
            bytes@.len() >= 128,
        ensures
            match r {
                Ok(c) => parse_certificate(bytes@) == Some(c@),
                Err(_) => parse_certificate(bytes@) is None,
            },
    {
        let device_ed25519_pubkey: [u8; 32] = copy_array::<32>(bytes.as_slice(), 0);
        if !ed25519_valid_point(&device_ed25519_pubkey) {
            return Err("Failed to create VerifyingKey object");
        }
        let device_x25519_pubkey: [u8; 32] = copy_array::<32>(bytes.as_slice(), 32);
        let master_signature: [u8; 64] = copy_array::<64>(bytes.as_slice(), 64);
        Ok(DeviceCertificate { device_ed25519_pubkey, device_x25519_pubkey, master_signature })
    }
}

} // verus!
