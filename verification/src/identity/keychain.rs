//! A device's own key material, stored locally, optionally under a password.

use vstd::prelude::*;
use vstd::string::StringSliceAdditionalSpecFns;
use crate::crypto::argon::{decrypt_with_password, encrypt_with_password, open_with_password, sealed_with_password};
use crate::crypto::cipher::aead_plaintext_bound;
use crate::crypto::dh::{public_key_of, x25519_public};
use crate::crypto::hkdf::{derive_key, hkdf_sha256};
use crate::crypto::labels::{keychain_ed25519_bytes, keychain_ed25519_label, keychain_x25519_bytes, keychain_x25519_label};
use crate::crypto::mnemonic::{bip39_seed, generate_english, passphrase_of, passphrase_text, phrase_seed};
use crate::crypto::sign::{ed25519_public, ed25519_public_key};
use crate::crypto::wipe::wipe64;
use crate::protocol::wire::{copy_array, copy_tail, push_all};

verus! {

pub struct Keychain {
    pub has_password: bool,
    pub device_ed25519_pub: [u8; 32],
    pub device_ed25519_priv: [u8; 32],
    pub device_x25519_pub: [u8; 32],
    pub device_x25519_priv: [u8; 32],
}

/// `k` is the keychain of seed `seed`: its device secrets are the HKDF
/// expansions of the seed under the two labels.
pub open spec fn derived_from(k: Keychain, seed: Seq<u8>, has_password: bool) -> bool {
    &&& k.well_formed()
    &&& k.has_password == has_password
    &&& k.device_ed25519_priv@ == hkdf_sha256(None, seed, keychain_ed25519_label(), 32)
    &&& k.device_x25519_priv@ == hkdf_sha256(None, seed, keychain_x25519_label(), 32)
}

impl Keychain {
    /// Each public key belongs to its secret key.
    pub open spec fn well_formed(&self) -> bool {
        &&& self.device_ed25519_pub@ == ed25519_public(self.device_ed25519_priv@)
        &&& self.device_x25519_pub@ == x25519_public(self.device_x25519_priv@)
    }
}

/// The bytes of an optional password.
pub open spec fn password_bytes(password: Option<&str>) -> Option<Seq<u8>> {
    match password {
        Some(p) => Some(p.spec_bytes()),
        None => None,
    }
}

/// The two secret keys, as stored: `ed25519 secret || x25519 secret`.
pub open spec fn keychain_secrets(k: Keychain) -> Seq<u8> {
    k.device_ed25519_priv@ + k.device_x25519_priv@
}

/// Whether `stored` is a serialization of `k` under `password`: a 0 byte and
/// the secrets in clear, or a 1 byte and the secrets encrypted under the password.
pub open spec fn stores_keychain(stored: Seq<u8>, k: Keychain, password: Option<Seq<u8>>) -> bool {
    match password {
        None => stored == seq![0u8] + keychain_secrets(k),
        Some(pw) => stored.len() == 125 && stored[0] == 1
            && sealed_with_password(stored.subrange(1, stored.len() as int), keychain_secrets(k), pw)
            && open_with_password(stored.subrange(1, stored.len() as int), pw) == Some(keychain_secrets(k)),
    }
}

/// The secret keys that stored bytes hold, when they can be read.
pub open spec fn stored_secrets(bytes: Seq<u8>, password: Option<Seq<u8>>) -> Option<Seq<u8>> {
    if bytes.len() == 0 {
        None
    } else if bytes[0] != 0 {
        match password {
            None => None,
            Some(pw) => match open_with_password(bytes.subrange(1, bytes.len() as int), pw) {
                Some(s) => if s.len() < 64 { None } else { Some(s) },
                None => None,
            },
        }
    } else if bytes.len() < 65 {
        None
    } else {
        Some(bytes.subrange(1, 65))
    }
}

/// Reading back the serialization of a well-formed keychain with the same
/// password gives the same keys.
pub proof fn lemma_keychain_roundtrip(stored: Seq<u8>, k: Keychain, password: Option<Seq<u8>>)
    requires
        stores_keychain(stored, k, password),
    ensures
        stored_secrets(stored, password) matches Some(s) && s.subrange(0, 32) == k.device_ed25519_priv@
            && s.subrange(32, 64) == k.device_x25519_priv@,
        (stored[0] != 0) == (password is Some),
{
    match password {
        None => {
            assert(stored.subrange(1, 65) =~= keychain_secrets(k));
            assert(keychain_secrets(k).subrange(0, 32) =~= k.device_ed25519_priv@);
            assert(keychain_secrets(k).subrange(32, 64) =~= k.device_x25519_priv@);
        },
        Some(pw) => {
            assert(keychain_secrets(k).subrange(0, 32) =~= k.device_ed25519_priv@);
            assert(keychain_secrets(k).subrange(32, 64) =~= k.device_x25519_priv@);
        },
    }
}

impl Keychain {
    /// The device keys derived from a BIP-39 seed.
    pub fn from_seed(seed: &[u8; 64], has_password: bool) -> (r: Self)
        ensures
            r.well_formed(),
            r.has_password == has_password,
            r.device_ed25519_priv@ == hkdf_sha256(None, seed@, keychain_ed25519_label(), 32),
            r.device_x25519_priv@ == hkdf_sha256(None, seed@, keychain_x25519_label(), 32),
    {
        let ed_info = keychain_ed25519_bytes();
        let ed_priv = match derive_key(seed.as_slice(), None, ed_info.as_slice()) {
            Ok(k) => k,
            Err(_) => [0u8; 32],
        };
        let x_info = keychain_x25519_bytes();
        let x_priv = match derive_key(seed.as_slice(), None, x_info.as_slice()) {
            Ok(k) => k,
            Err(_) => [0u8; 32],
        };
        Self::from_secrets(has_password, ed_priv, x_priv)
    }

    fn from_secrets(has_password: bool, ed_priv: [u8; 32], x_priv: [u8; 32]) -> (r: Self)
        ensures
            r.well_formed(),
            r.has_password == has_password,
            r.device_ed25519_priv == ed_priv,
            r.device_x25519_priv == x_priv,
    {
        Keychain {
            has_password,
            device_ed25519_pub: ed25519_public_key(&ed_priv),
            device_ed25519_priv: ed_priv,
            device_x25519_pub: public_key_of(&x_priv),
            device_x25519_priv: x_priv,
        }
    }

    /// The device keys of a seed phrase (and optional passphrase): the
    /// keychain `from_seed` gives for the phrase's BIP-39 seed. Fails when
    /// the phrase is not one the BIP-39 word list accepts.
    pub fn from_mnemonic(phrase: &str, password: Option<&str>) -> (r: Result<Self, String>)
        ensures
            match bip39_seed(phrase@, passphrase_of(password)) {
                None => r is Err,
                Some(s) => r matches Ok(k) && derived_from(k, s, password is Some),
            },
    {
        let passphrase = passphrase_text(password);
        let mut seed_64 = match phrase_seed(phrase, passphrase) {
            Some(s) => s,
            None => return Err("invalid seed phrase".to_string()),
        };
        let r = Self::from_seed(&seed_64, password.is_some());
        wipe64(&mut seed_64);
        Ok(r)
    }

    /// A fresh 12-word seed phrase and the keychain it gives.
    pub fn generate(password: Option<&str>) -> (r: (Self, String))
        ensures
            bip39_seed(r.1@, passphrase_of(password)) matches Some(s) && derived_from(r.0, s, password is Some),
    {
        let mnemonic = generate_english(12).unwrap();
        proof {
            assert(bip39_seed(mnemonic@, passphrase_of(password)) is Some);
        }
        let keychain = Self::from_mnemonic(mnemonic.as_str(), password).unwrap();
        (keychain, mnemonic)
    }

    /// The stored form: a flag byte, then the two secret keys, encrypted
    /// under the password when there is one.
    pub fn serialize(&self, password: Option<&str>) -> (r: Vec<u8>)
        requires
            password matches Some(p) ==> p.spec_bytes().len() <= 0xffff_ffff,
        ensures
            stores_keychain(r@, *self, password_bytes(password)),
    {
        let mut privkeys: Vec<u8> = Vec::new();
        push_all(&mut privkeys, self.device_ed25519_priv.as_slice());
        push_all(&mut privkeys, self.device_x25519_priv.as_slice());
        let mut output: Vec<u8> = Vec::new();
        match password {
            Some(pw) => {
                output.push(1u8);
                match encrypt_with_password(privkeys.as_slice(), pw.as_bytes()) {
                    Ok(encrypted) => {
                        push_all(&mut output, encrypted.as_slice());
                        assert(output@.subrange(1, output@.len() as int) =~= encrypted@);
                    },
                    Err(_) => {
                        assert(false);
                    },
                }
            },
            None => {
                output.push(0u8);
                push_all(&mut output, privkeys.as_slice());
                assert(output@ =~= seq![0u8] + keychain_secrets(*self));
            },
        }
        output
    }

    /// Reads stored keys back, decrypting them with `password` when they are
    /// encrypted, and recomputes the public keys.
    pub fn from_serialized(bytes: &[u8], password: Option<&str>) -> (r: Result<Self, String>)
        ensures
            match stored_secrets(bytes@, password_bytes(password)) {
                None => r is Err,
                Some(s) => r matches Ok(k) && k.well_formed() && k.has_password == (bytes@[0] != 0)
                    && k.device_ed25519_priv@ == s.subrange(0, 32) && k.device_x25519_priv@ == s.subrange(32, 64),
            },
    {
        if bytes.len() == 0 {
            return Err("empty keychain data".to_string());
        }
        let has_password = bytes[0] != 0;
        let privkeys = if has_password {
            let pw = match password {
                Some(p) => p,
                None => return Err("keychain is encrypted but no password provided".to_string()),
            };
            let rest = copy_tail(bytes, 1);
            decrypt_with_password(rest.as_slice(), pw.as_bytes())?
        } else {
            if bytes.len() < 1 + 64 {
                return Err("truncated keychain data".to_string());
            }
            crate::protocol::wire::copy_range(bytes, 1, 64)
        };
        if privkeys.len() < 64 {
            return Err("invalid keychain data".to_string());
        }
        let device_ed25519_priv: [u8; 32] = copy_array::<32>(privkeys.as_slice(), 0);
        let device_x25519_priv: [u8; 32] = copy_array::<32>(privkeys.as_slice(), 32);
        Ok(Self::from_secrets(has_password, device_ed25519_priv, device_x25519_priv))
    }
}

} // verus!
