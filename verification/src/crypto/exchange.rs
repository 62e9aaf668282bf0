//! X25519 key pairs for agreeing on a shared secret: a static pair that can
//! agree any number of times, and an ephemeral pair whose secret is used once.

use vstd::prelude::*;
use crate::crypto::dh::{x25519_spec, x25519_public, x25519, public_key_of, fresh_secret};

verus! {

pub struct StaticExchangeKeyPair {
    pub public_key: [u8; 32],
    secret: [u8; 32],
    /// The secret agreed with the last peer, once computed.
    pub shared_secret: Option<[u8; 32]>,
}

pub struct EphemeralExchangeKeyPair {
    pub public_key: [u8; 32],
    /// `None` once the secret has been used.
    secret: Option<[u8; 32]>,
    pub shared_secret: Option<[u8; 32]>,
}

impl StaticExchangeKeyPair {
    /// The public key of the pair.
    pub closed spec fn public(&self) -> Seq<u8> {
        self.public_key@
    }

    /// The agreed secret, once computed.
    pub closed spec fn shared(&self) -> Option<Seq<u8>> {
        match self.shared_secret {
            Some(s) => Some(s@),
            None => None,
        }
    }

    /// The secret scalar of the pair.
    pub closed spec fn secret_key(&self) -> Seq<u8> {
        self.secret@
    }

    /// The public key is the one of the secret.
    pub open spec fn wf(&self) -> bool {
        &&& self.secret_key().len() == 32
        &&& self.public() == x25519_public(self.secret_key())
    }

    /// A fresh random pair.
    pub fn new() -> (r: Self)
        ensures
            r.wf(),
            r.shared() is None,
    {
        let secret = fresh_secret();
        let public_key = public_key_of(&secret);
        StaticExchangeKeyPair { public_key, secret, shared_secret: None }
    }

    /// Agrees on a secret with the holder of `peer_public_key`: the holder,
    /// applying its secret to our public key, reaches the same secret.
    pub fn compute_shared_secret(&mut self, peer_public_key: &[u8; 32]) -> (r: Result<(), &'static str>)
        requires
            old(self).wf(),
        ensures
            final(self).wf(),
            r is Ok,
            final(self).public() == old(self).public(),
            final(self).secret_key() == old(self).secret_key(),
            final(self).shared() == Some(x25519_spec(old(self).secret_key(), peer_public_key@)),
            forall|peer_secret: Seq<u8>| peer_secret.len() == 32 && peer_public_key@ == #[trigger] x25519_public(peer_secret)
                ==> final(self).shared() == Some(x25519_spec(peer_secret, old(self).public())),
    {
        let shared = x25519(&self.secret, peer_public_key);
        self.shared_secret = Some(shared);
        Ok(())
    }
}

impl EphemeralExchangeKeyPair {
    /// The public key of the pair.
    pub closed spec fn public(&self) -> Seq<u8> {
        self.public_key@
    }

    /// The agreed secret, once computed.
    pub closed spec fn shared(&self) -> Option<Seq<u8>> {
        match self.shared_secret {
            Some(s) => Some(s@),
            None => None,
        }
    }

    /// The secret scalar, while it is unused.
    pub closed spec fn secret_key(&self) -> Option<Seq<u8>> {
        match self.secret {
            Some(s) => Some(s@),
            None => None,
        }
    }

    /// While the secret is unused, the public key is the one of the secret.
    pub open spec fn wf(&self) -> bool {
        self.secret_key() matches Some(s) ==> s.len() == 32 && self.public() == x25519_public(s)
    }

    /// The public key of the pair.
    pub fn public_bytes(&self) -> (r: [u8; 32])
        ensures
            r@ == self.public(),
    {
        self.public_key
    }

    /// The agreed secret, once computed.
    pub fn shared_key(&self) -> (r: Option<[u8; 32]>)
        ensures
            match r {
                Some(k) => self.shared() == Some(k@),
                None => self.shared() is None,
            },
    {
        self.shared_secret
    }

    /// A fresh random pair.
    pub fn new() -> (r: Self)
        ensures
            r.wf(),
            r.secret_key() is Some,
            r.public() == x25519_public(r.secret_key()->0),
            r.shared() is None,
    {
        let secret = fresh_secret();
        let public_key = public_key_of(&secret);
        EphemeralExchangeKeyPair { public_key, secret: Some(secret), shared_secret: None }
    }

    /// Agrees on a secret with the holder of `peer_public_key`, using up this
    /// pair's secret; fails once it is used.
    pub fn compute_shared_secret(&mut self, peer_public_key: &[u8; 32]) -> (r: Result<(), &'static str>)
        requires
            old(self).wf(),
        ensures
            final(self).wf(),
            final(self).public() == old(self).public(),
            final(self).secret_key() is None,
            match old(self).secret_key() {
                None => r matches Err(e) && e@ == "ephemeral secret already consumed"@
                    && final(self).shared() == old(self).shared(),
                Some(k) => r is Ok && final(self).shared() == Some(x25519_spec(k, peer_public_key@))
                    && forall|peer_secret: Seq<u8>| peer_secret.len() == 32 && peer_public_key@ == #[trigger] x25519_public(peer_secret)
                        ==> final(self).shared() == Some(x25519_spec(peer_secret, old(self).public())),
            },
    {
        let secret = match self.secret.take() {
            Some(s) => s,
            None => return Err("ephemeral secret already consumed"),
        };
        let shared = x25519(&secret, peer_public_key);
        self.shared_secret = Some(shared);
        Ok(())
    }
}

/// Two static pairs that exchange public keys reach the same secret: `a`,
/// after agreeing with `b`'s public key (`a2`), and `b`, after agreeing with
/// `a`'s (`b2`), hold the same shared secret.
pub proof fn lemma_static_pairs_agree(
    a: StaticExchangeKeyPair,
    b: StaticExchangeKeyPair,
    a2: StaticExchangeKeyPair,
    b2: StaticExchangeKeyPair,
)
    requires
        a.wf(),
        b.wf(),
        a2.shared() == Some(x25519_spec(a.secret_key(), b.public())),
        forall|peer_secret: Seq<u8>| peer_secret.len() == 32 && b.public() == #[trigger] x25519_public(peer_secret)
            ==> a2.shared() == Some(x25519_spec(peer_secret, a.public())),
        b2.shared() == Some(x25519_spec(b.secret_key(), a.public())),
    ensures
        a2.shared() is Some,
        a2.shared() == b2.shared(),
{
    assert(b.public() == x25519_public(b.secret_key()));
}

} // verus!
