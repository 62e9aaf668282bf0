//! The master identity of a user: an Ed25519 key pair derived from a seed phrase.

use vstd::prelude::*;
use crate::crypto::mnemonic::{bip39_seed, generate_english, passphrase_of, passphrase_text, phrase_seed};
use crate::crypto::sign::{ed25519_public, ed25519_public_key, ed25519_sign, ed25519_signature, ed25519_check, ed25519_verifies};
use crate::crypto::wipe::{wipe32, wipe64};
use crate::crypto::hkdf::{hkdf_32, hkdf_sha256};
use crate::crypto::labels::{master_ed25519_bytes, master_ed25519_label};

verus! {

/// Key pair used to sign device certificates and device lists.
pub struct MasterKeyPair {
    pub public_key: [u8; 32],
    private_key: [u8; 32],
}

impl MasterKeyPair {
    /// The secret signing key.
    pub closed spec fn secret(&self) -> Seq<u8> {
        self.private_key@
    }

    /// The public verifying key.
    pub closed spec fn public(&self) -> Seq<u8> {
        self.public_key@
    }

    /// The public key belongs to the secret key.
    pub open spec fn well_formed(&self) -> bool {
        self.public() == ed25519_public(self.secret())
    }

    /// The key pair of a BIP-39 seed: the secret is the seed's HKDF-SHA256
    /// expansion under the label `"insub-master-ed25519-v1"`.
    pub fn from_seed(seed: &[u8; 64]) -> (r: Self)
        ensures
            r.secret() == hkdf_sha256(None, seed@, master_ed25519_label(), 32),
            r.well_formed(),
    {
        let label = master_ed25519_bytes();
        let mut seed_32: [u8; 32] = hkdf_32(None, seed.as_slice(), label.as_slice());
        let r = Self::from_signing_key_bytes(&seed_32);
        wipe32(&mut seed_32);
        r
    }

    /// The key pair of a seed phrase (and optional passphrase): the key pair
    /// `from_seed` gives for the phrase's BIP-39 seed. Fails when the phrase
    /// is not one the BIP-39 word list accepts.
    pub fn from_mnemonic(phrase: &str, password: Option<&str>) -> (r: Result<Self, String>)
        ensures
            match bip39_seed(phrase@, passphrase_of(password)) {
                None => r is Err,
                Some(s) => r matches Ok(k) && k.well_formed() && k.secret() == hkdf_sha256(None, s, master_ed25519_label(), 32),
            },
    {
        let passphrase = passphrase_text(password);
        let mut seed_64 = match phrase_seed(phrase, passphrase) {
            Some(s) => s,
            None => return Err("invalid seed phrase".to_string()),
        };
        let r = Self::from_seed(&seed_64);
        wipe64(&mut seed_64);
        Ok(r)
    }

    /// Signs `message` with the secret key.
    pub fn sign(&self, message: &[u8]) -> (r: [u8; 64])
        ensures
            r@ == ed25519_signature(self.secret(), message@),
            self.well_formed() ==> ed25519_verifies(self.public(), message@, r@),
    {
        ed25519_sign(&self.private_key, message)
    }

    /// A fresh 24-word English seed phrase.
    fn generate_mnemonic() -> (r: String)
        ensures
            forall|pw: Seq<char>| #[trigger] bip39_seed(r@, pw) is Some,
    {
        generate_english(24).unwrap()
    }

    /// A new 24-word seed phrase and its key pair, which is the key pair
    /// `from_mnemonic` gives for that phrase without a passphrase.
    pub fn new() -> (r: (Self, String))
        ensures
            r.0.well_formed(),
            bip39_seed(r.1@, Seq::empty()) matches Some(s) && r.0.secret() == hkdf_sha256(None, s, master_ed25519_label(), 32),
    {
        let mnemonic = Self::generate_mnemonic();
        proof {
            assert(bip39_seed(mnemonic@, passphrase_of(None)) is Some);
        }
        let keypair = Self::from_mnemonic(mnemonic.as_str(), None).unwrap();
        (keypair, mnemonic)
    }

    /// The public key bytes.
    pub fn public_bytes(&self) -> (r: [u8; 32])
        ensures
            r@ == self.public(),
    {
        self.public_key
    }

    /// The secret key bytes.
    pub fn to_bytes(&self) -> (r: [u8; 32])
        ensures
            r@ == self.secret(),
    {
        self.private_key
    }

    /// The key pair of a secret key.
    pub fn from_signing_key_bytes(bytes: &[u8; 32]) -> (r: Self)
        ensures
            r.secret() == bytes@,
            r.well_formed(),
    {
        let public_key = ed25519_public_key(bytes);
        MasterKeyPair { public_key, private_key: *bytes }
    }
}

/// Another user, known by their public key.
pub struct UserID {
    pub public_key: [u8; 32],
}

impl UserID {
    /// Whether `signature` is this user's signature of `message`.
    pub fn verify(&self, message: &[u8], signature: &[u8; 64]) -> (r: bool)
        ensures
            r == ed25519_verifies(self.public_key@, message@, signature@),
    {
        ed25519_check(&self.public_key, message, signature)
    }

    /// The identity that a key pair presents to others.
    pub fn from_keypair(kp: &MasterKeyPair) -> (r: UserID)
        ensures
            r.public_key@ == kp.public(),
    {
        UserID { public_key: kp.public_key }
    }
}

impl<'a> From<&'a MasterKeyPair> for UserID {
    fn from(kp: &'a MasterKeyPair) -> (r: UserID) {
        UserID { public_key: kp.public_key }
    }
}

impl<'a> vstd::std_specs::convert::FromSpecImpl<&'a MasterKeyPair> for UserID {
    open spec fn obeys_from_spec() -> bool {
        true
    }

    closed spec fn from_spec(kp: &'a MasterKeyPair) -> UserID {
        UserID { public_key: kp.public_key }
    }
}

/// What a key pair signs, its identity accepts.
pub proof fn lemma_signature_verifies(kp: MasterKeyPair, message: Seq<u8>, sig: Seq<u8>)
    requires
        kp.well_formed(),
        ed25519_verifies(ed25519_public(kp.secret()), message, sig),
    ensures
        ed25519_verifies(kp.public(), message, sig),
{
}

} // verus!
