//! A sealed message: text encrypted to a recipient's exchange key under a
//! one-time exchange key of the sender, and signed by the sender's master
//! key together with the nonce and the one-time key.

use vstd::prelude::*;
use vstd::string::StringSliceAdditionalSpecFns;
use vstd::utf8::{valid_utf8, decode_utf8, encode_utf8};
use crate::cipher::{self, text_key};
use crate::crypto::cipher::{aead_seal, aead_open, aead_plaintext_bound};
use crate::crypto::dh::{x25519_spec, x25519_public};
use crate::crypto::exchange::EphemeralExchangeKeyPair;
use crate::crypto::sign::{ed25519_signature, ed25519_verifies};
use crate::identity::identity::{MasterKeyPair, UserID};
use crate::protocol::wire::push_all;

verus! {

pub struct Message {
    pub sender_identity: [u8; 32],
    pub exchange_key: [u8; 32],
    pub nonce: [u8; 12],
    pub ciphertext: Vec<u8>,
    pub signature: [u8; 64],
}

/// What the sender signs: the ciphertext, the nonce and the one-time key.
pub open spec fn sealed_signed_data(ciphertext: Seq<u8>, nonce: Seq<u8>, exchange_key: Seq<u8>) -> Seq<u8> {
    ciphertext + nonce + exchange_key
}

impl Message {
    pub open spec fn signed_view(&self) -> Seq<u8> {
        sealed_signed_data(self.ciphertext@, self.nonce@, self.exchange_key@)
    }

    fn signed_data(&self) -> (r: Vec<u8>)
        ensures
            r@ == self.signed_view(),
    {
        let mut data: Vec<u8> = Vec::new();
        push_all(&mut data, self.ciphertext.as_slice());
        push_all(&mut data, self.nonce.as_slice());
        push_all(&mut data, self.exchange_key.as_slice());
        assert(data@ =~= self.signed_view());
        data
    }

    /// Seals `plaintext` for the holder of `recipient_exchange_pubkey`: the
    /// one-time pair `sender_exchange` agrees on the key (using up its
    /// secret) and `sender` signs the result.
    pub fn new(
        sender: &MasterKeyPair,
        sender_exchange: &mut EphemeralExchangeKeyPair,
        recipient_exchange_pubkey: &[u8; 32],
        plaintext: &str,
    ) -> (r: Result<Message, &'static str>)
        requires
            old(sender_exchange).wf(),
        ensures
            final(sender_exchange).wf(),
            final(sender_exchange).public() == old(sender_exchange).public(),
            final(sender_exchange).secret_key() is None,
            match old(sender_exchange).secret_key() {
                None => r is Err && final(sender_exchange).shared() == old(sender_exchange).shared(),
                Some(k) => {
                    let ss = x25519_spec(k, recipient_exchange_pubkey@);
                    &&& final(sender_exchange).shared() == Some(ss)
                    &&& (r is Ok <==> plaintext.spec_bytes().len() < aead_plaintext_bound())
                    &&& r matches Ok(m) ==> {
                        &&& m.sender_identity@ == sender.public()
                        &&& m.exchange_key@ == old(sender_exchange).public()
                        &&& forall|rs: Seq<u8>| rs.len() == 32 && recipient_exchange_pubkey@ == #[trigger] x25519_public(rs)
                            ==> x25519_spec(rs, m.exchange_key@) == ss
                        &&& aead_seal(text_key(ss), m.nonce@, plaintext.spec_bytes()) == Some(m.ciphertext@)
                        &&& aead_open(text_key(ss), m.nonce@, m.ciphertext@) == Some(plaintext.spec_bytes())
                        &&& m.signature@ == ed25519_signature(sender.secret(), m.signed_view())
                    }
                },
            },
    {
        sender_exchange.compute_shared_secret(recipient_exchange_pubkey)?;
        let shared_secret = match sender_exchange.shared_key() {
            Some(s) => s,
            None => return Err("shared secret missing after computation"),
        };
        let (ciphertext, nonce) = cipher::encrypt(plaintext, shared_secret.as_slice())?;
        let mut m = Message {
            sender_identity: sender.public_bytes(),
            exchange_key: sender_exchange.public_bytes(),
            nonce,
            ciphertext,
            signature: [0u8; 64],
        };
        let data = m.signed_data();
        m.signature = sender.sign(data.as_slice());
        Ok(m)
    }

    /// Opens the message with the recipient's one-time pair (using up its
    /// secret) after checking the sender's signature.
    pub fn open(&self, recipient_exchange: &mut EphemeralExchangeKeyPair, sender_identity: &UserID) -> (r: Result<String, &'static str>)
        requires
            old(recipient_exchange).wf(),
        ensures
            !ed25519_verifies(sender_identity.public_key@, self.signed_view(), self.signature@)
                ==> (r matches Err(e) && e@ == "The signature does not match"@
                    && *final(recipient_exchange) == *old(recipient_exchange)),
            ed25519_verifies(sender_identity.public_key@, self.signed_view(), self.signature@) ==> {
                &&& final(recipient_exchange).wf()
                &&& final(recipient_exchange).public() == old(recipient_exchange).public()
                &&& final(recipient_exchange).secret_key() is None
                &&& match old(recipient_exchange).secret_key() {
                    None => r is Err && final(recipient_exchange).shared() == old(recipient_exchange).shared(),
                    Some(k) => {
                        let ss = x25519_spec(k, self.exchange_key@);
                        &&& final(recipient_exchange).shared() == Some(ss)
                        &&& match aead_open(text_key(ss), self.nonce@, self.ciphertext@) {
                            None => r is Err,
                            Some(p) => (r is Ok <==> valid_utf8(p)) && (r matches Ok(s) ==> s@ == decode_utf8(p)),
                        }
                    },
                }
            },
    {
        let data = self.signed_data();
        if !sender_identity.verify(data.as_slice(), &self.signature) {
            return Err("The signature does not match");
        }
        recipient_exchange.compute_shared_secret(&self.exchange_key)?;
        let shared_secret = match recipient_exchange.shared_key() {
            Some(s) => s,
            None => return Err("shared secret missing after computation"),
        };
        cipher::decrypt(&self.ciphertext, &self.nonce, shared_secret.as_slice())
    }
}

/// What the recipient opens is what the sender sealed. The sender sealed
/// `text` under the secret its one-time key `k` agrees with the recipient's
/// key `x25519_public(r)`; where the recipient's secret `r` reaches the same
/// secret from the sender's one-time public key (as `new` states), the
/// recipient's key opens the ciphertext to bytes that are valid UTF-8 and
/// decode to `text`, so `open` gives `text` back once the signature holds.
pub proof fn lemma_open_gives_sealed_text(k: Seq<u8>, r: Seq<u8>, text: Seq<char>, nonce: Seq<u8>, ct: Seq<u8>)
    requires
        x25519_spec(r, x25519_public(k)) == x25519_spec(k, x25519_public(r)),
        aead_open(text_key(x25519_spec(k, x25519_public(r))), nonce, ct) == Some(encode_utf8(text)),
    ensures
        aead_open(text_key(x25519_spec(r, x25519_public(k))), nonce, ct) matches Some(p)
            && valid_utf8(p) && decode_utf8(p) == text,
{
    vstd::utf8::encode_utf8_valid_utf8(text);
    vstd::utf8::encode_utf8_decode_utf8(text);
}

} // verus!
