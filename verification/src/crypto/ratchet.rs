//! Symmetric-key chains and the Diffie-Hellman double ratchet.

use vstd::prelude::*;
use std::collections::HashMap;
use crate::crypto::cipher::{self, aead_open, aead_seal, aead_plaintext_bound};
use crate::crypto::dh::{x25519, x25519_spec, x25519_public, public_key_of, fresh_secret};
use crate::crypto::hkdf::{derive_key, hkdf_sha256, hkdf_sha256_expand};
use crate::crypto::labels::{
    message_key_label, message_key_bytes, chain_key_label, chain_key_bytes, init_chain_label,
    init_chain_bytes, whisper_ratchet_label, whisper_ratchet_bytes,
};
use crate::protocol::wire::{copy_array, same_bytes};

verus! {

broadcast use vstd::std_specs::hash::group_hash_axioms;

/// The chain key that follows `k`.
pub open spec fn next_chain_key(k: Seq<u8>) -> Seq<u8> {
    hkdf_sha256(None, k, chain_key_label(), 32)
}

/// The message key drawn from chain key `k`.
pub open spec fn message_key_of(k: Seq<u8>) -> Seq<u8> {
    hkdf_sha256(None, k, message_key_label(), 32)
}

/// The chain key after `n` steps from `k`.
pub open spec fn chain_key_after(k: Seq<u8>, n: nat) -> Seq<u8>
    decreases n,
{
    if n == 0 {
        k
    } else {
        next_chain_key(chain_key_after(k, (n - 1) as nat))
    }
}

/// The key of the `i`-th message (counting from 1) of a chain at key `k`.
pub open spec fn message_key_at(k: Seq<u8>, i: nat) -> Seq<u8> {
    message_key_of(chain_key_after(k, (i - 1) as nat))
}

pub struct Chain {
    pub key: [u8; 32],
    pub message_number: u32,
    pub skipped_keys: HashMap<u32, [u8; 32]>,
}

/// Mathematical value of a chain.
pub struct ChainView {
    pub key: Seq<u8>,
    pub message_number: u32,
    pub skipped: Map<u32, Seq<u8>>,
}

impl View for Chain {
    type V = ChainView;

    open spec fn view(&self) -> ChainView {
        ChainView {
            key: self.key@,
            message_number: self.message_number,
            skipped: self.skipped_keys@.map_values(|a: [u8; 32]| a@),
        }
    }
}

/// A fresh chain at key `k` with nothing skipped.
pub open spec fn fresh_chain(k: Seq<u8>) -> ChainView {
    ChainView { key: k, message_number: 0, skipped: Map::empty() }
}

/// The chain after skipping ahead to message `target`: every message key in
/// between is kept for messages that arrive late.
pub open spec fn skip_chain(c: ChainView, target: u32) -> ChainView {
    ChainView {
        key: chain_key_after(c.key, (target - c.message_number) as nat),
        message_number: target,
        skipped: Map::new(
            |m: u32| c.skipped.contains_key(m) || (c.message_number < m < target),
            |m: u32|
                if c.message_number < m < target {
                    message_key_at(c.key, (m - c.message_number) as nat)
                } else {
                    c.skipped[m]
                },
        ),
    }
}

/// The receiving chain after message `n` is accepted, with the key that
/// decrypts it; `None` when the message is too old and its key is gone.
pub open spec fn receive_key(c: ChainView, n: u32) -> Option<(ChainView, Seq<u8>)> {
    if n == c.message_number + 1 {
        Some(
            (
                ChainView { key: next_chain_key(c.key), message_number: n, skipped: c.skipped },
                message_key_of(c.key),
            ),
        )
    } else if n > c.message_number + 1 {
        Some((skip_chain(c, n), message_key_at(c.key, (n - c.message_number) as nat)))
    } else if c.skipped.contains_key(n) {
        Some((ChainView { key: c.key, message_number: c.message_number, skipped: c.skipped.remove(n) }, c.skipped[n]))
    } else {
        None
    }
}

fn message_key(k: &[u8; 32]) -> (r: [u8; 32])
    ensures
        r@ == message_key_of(k@),
{
    let info = message_key_bytes();
    match derive_key(k.as_slice(), None, info.as_slice()) {
        Ok(v) => v,
        Err(_) => [0u8; 32],
    }
}

fn chain_step(k: &[u8; 32]) -> (r: [u8; 32])
    ensures
        r@ == next_chain_key(k@),
{
    let info = chain_key_bytes();
    match derive_key(k.as_slice(), None, info.as_slice()) {
        Ok(v) => v,
        Err(_) => [0u8; 32],
    }
}

impl Chain {
    /// A chain at key `key` with nothing sent or received yet.
    pub fn fresh(key: [u8; 32]) -> (r: Chain)
        ensures
            r@ == fresh_chain(key@),
    {
        let c = Chain { key, message_number: 0, skipped_keys: HashMap::new() };
        assert(c@.skipped =~= Map::<u32, Seq<u8>>::empty());
        c
    }

    /// Moves the chain one step and returns the new message number with its key.
    pub fn advance(&mut self) -> (r: Result<(u32, [u8; 32]), String>)
        requires
            old(self).message_number < u32::MAX,
        ensures
            r matches Ok((n, k)) && n == old(self).message_number + 1 && k@ == message_key_of(old(self).key@),
            final(self).key@ == next_chain_key(old(self).key@),
            final(self).message_number == old(self).message_number + 1,
            final(self).skipped_keys@ == old(self).skipped_keys@,
    {
        let message_key = message_key(&self.key);
        self.key = chain_step(&self.key);
        self.message_number = self.message_number + 1;
        Ok((self.message_number, message_key))
    }

    /// Moves the chain to message `target`, keeping the keys of the messages
    /// in between, and returns the key of message `target`. Does nothing and
    /// returns zeros when `target` is not ahead of the chain.
    pub fn skip_to(&mut self, target: u32) -> (r: Result<[u8; 32], String>)
        requires
            old(self).message_number < u32::MAX,
        ensures
            target <= old(self).message_number ==> (r matches Ok(k) && k@ == Seq::new(32, |i: int| 0u8)
                && final(self)@ == old(self)@),
            target > old(self).message_number ==> (r matches Ok(k)
                && k@ == message_key_at(old(self).key@, (target - old(self).message_number) as nat)
                && final(self)@ == skip_chain(old(self)@, target)),
    {
        let ghost c0 = self@;
        let mut final_key = [0u8; 32];
        if target <= self.message_number {
            assert(final_key@ =~= Seq::new(32, |i: int| 0u8));
            return Ok(final_key);
        }
        let start = self.message_number;
        let mut msg_num: u64 = start as u64 + 1;
        while msg_num <= target as u64
            invariant
                c0 == old(self)@,
                start == c0.message_number,
                start < msg_num,
                msg_num <= target as u64 + 1,
                target > start,
                self.message_number == msg_num - 1,
                self.key@ == chain_key_after(c0.key, (msg_num - 1 - start) as nat),
                msg_num > target ==> final_key@ == message_key_at(c0.key, (target - start) as nat),
                forall|m: u32| #[trigger] self@.skipped.contains_key(m) <==> (c0.skipped.contains_key(m) || (start < m < msg_num && m < target)),
                forall|m: u32| #[trigger] self@.skipped.contains_key(m) ==> self@.skipped[m] == if start < m < msg_num && m < target {
                    message_key_at(c0.key, (m - start) as nat)
                } else {
                    c0.skipped[m]
                },
            decreases target as u64 + 1 - msg_num,
        {
            let ghost before = self@;
            let n = msg_num as u32;
            let msg_key = message_key(&self.key);
            self.key = chain_step(&self.key);
            self.message_number = n;
            assert(self.key@ == chain_key_after(c0.key, (msg_num - start) as nat));
            if n < target {
                self.skipped_keys.insert(n, msg_key);
                assert(self@.skipped =~= before.skipped.insert(n, msg_key@));
            } else {
                final_key = msg_key;
                assert(self@.skipped =~= before.skipped);
            }
            msg_num = msg_num + 1;
        }
        assert(self@.skipped =~= skip_chain(c0, target).skipped);
        Ok(final_key)
    }

    /// Takes the kept key of an out-of-order message, if there is one.
    pub fn try_skipped(&mut self, message_number: u32) -> (r: Option<[u8; 32]>)
        ensures
            final(self).key == old(self).key,
            final(self).message_number == old(self).message_number,
            final(self).skipped_keys@ == old(self).skipped_keys@.remove(message_number),
            r == old(self).skipped_keys@.get(message_number),
    {
        self.skipped_keys.remove(&message_number)
    }
}

/// The chain after `j` calls of `advance`, each drawing one message key,
/// with the keys drawn kept for the messages skipped over (all but the last).
pub open spec fn advanced(c: ChainView, j: nat) -> ChainView
    decreases j,
{
    if j == 0 {
        c
    } else {
        let prev = advanced(c, (j - 1) as nat);
        ChainView {
            key: next_chain_key(prev.key),
            message_number: (prev.message_number + 1) as u32,
            skipped: if j == 1 { prev.skipped } else {
                prev.skipped.insert((prev.message_number) as u32, message_key_of(advanced(c, (j - 2) as nat).key))
            },
        }
    }
}

/// Skipping ahead to message `target` is advancing the chain message by
/// message: the same chain key and count, the same keys kept for the
/// messages in between, and the key of message `target` is the one the last
/// step draws.
pub proof fn lemma_skip_matches_advances(c: ChainView, target: u32)
    requires
        c.message_number < target,
    ensures
        skip_chain(c, target).key == advanced(c, (target - c.message_number) as nat).key,
        skip_chain(c, target).message_number == advanced(c, (target - c.message_number) as nat).message_number,
        skip_chain(c, target).skipped =~= advanced(c, (target - c.message_number) as nat).skipped,
        message_key_at(c.key, (target - c.message_number) as nat)
            == message_key_of(advanced(c, (target - c.message_number - 1) as nat).key),
{
    let j = (target - c.message_number) as nat;
    lemma_advanced(c, j);
    lemma_advanced(c, (j - 1) as nat);
    let a = advanced(c, j).skipped;
    let b = skip_chain(c, target).skipped;
    assert forall|m: u32| #[trigger] b.contains_key(m) <==> a.contains_key(m) by {}
    assert forall|m: u32| #[trigger] b.contains_key(m) implies b[m] == a[m] by {
        assert(a.contains_key(m));
    }
    assert(b =~= a);
}

proof fn lemma_advanced(c: ChainView, j: nat)
    requires
        c.message_number + j <= u32::MAX,
    ensures
        advanced(c, j).key == chain_key_after(c.key, j),
        advanced(c, j).message_number == c.message_number + j,
        forall|m: u32| #[trigger] advanced(c, j).skipped.contains_key(m)
            <==> (c.skipped.contains_key(m) || (c.message_number < m < c.message_number + j)),
        forall|m: u32| #[trigger] advanced(c, j).skipped.contains_key(m) ==> advanced(c, j).skipped[m] ==
            if c.message_number < m < c.message_number + j { message_key_at(c.key, (m - c.message_number) as nat) } else { c.skipped[m] },
    decreases j,
{
    if j > 0 {
        lemma_advanced(c, (j - 1) as nat);
        if j > 1 {
            lemma_advanced(c, (j - 2) as nat);
        }
    }
}

/// Whichever way a message's key is obtained, directly or after a later
/// message made the chain skip past it, it is the same key: the one at the
/// message's position in the chain.
pub proof fn lemma_receive_order_independent(c: ChainView, m: u32, t: u32)
    requires
        c.message_number < m < t,
    ensures
        receive_key(c, m) matches Some((_, k)) && k == message_key_at(c.key, (m - c.message_number) as nat),
        receive_key(c, t) matches Some((c1, _)) && receive_key(c1, m) matches Some((_, k))
            && k == message_key_at(c.key, (m - c.message_number) as nat),
{
    assert(chain_key_after(c.key, 0) == c.key);
    let c1 = skip_chain(c, t);
    if t == c.message_number + 1 {
    } else {
        assert(c1.skipped.contains_key(m));
    }
}

/// The root-key KDF: 64 bytes of HKDF-SHA256 keyed by the root key, split
/// into the next root key and a chain key.
pub open spec fn kdf_rk_spec(rk: Seq<u8>, dh_out: Seq<u8>) -> (Seq<u8>, Seq<u8>) {
    let out = hkdf_sha256(Some(rk), dh_out, whisper_ratchet_label(), 64);
    (out.subrange(0, 32), out.subrange(32, 64))
}

fn kdf_rk(rk: &[u8; 32], dh_out: &[u8; 32]) -> (r: ([u8; 32], [u8; 32]))
    ensures
        (r.0@, r.1@) == kdf_rk_spec(rk@, dh_out@),
{
    let info = whisper_ratchet_bytes();
    let out = hkdf_sha256_expand(Some(rk.as_slice()), dh_out.as_slice(), info.as_slice(), 64);
    let a: [u8; 32] = copy_array::<32>(out.as_slice(), 0);
    let b: [u8; 32] = copy_array::<32>(out.as_slice(), 32);
    (a, b)
}

pub struct DoubleRatchet {
    root_key: [u8; 32],
    sending_chain: Chain,
    receiving_chain: Chain,
    our_dh_priv: [u8; 32],
    their_dh_pub: [u8; 32],
}

/// Mathematical value of a ratchet.
pub struct RatchetView {
    pub root_key: Seq<u8>,
    pub sending: ChainView,
    pub receiving: ChainView,
    pub our_dh_priv: Seq<u8>,
    pub their_dh_pub: Seq<u8>,
}

impl View for DoubleRatchet {
    type V = RatchetView;

    closed spec fn view(&self) -> RatchetView {
        RatchetView {
            root_key: self.root_key@,
            sending: self.sending_chain@,
            receiving: self.receiving_chain@,
            our_dh_priv: self.our_dh_priv@,
            their_dh_pub: self.their_dh_pub@,
        }
    }
}

/// The ratchet after the peer shows the new public key `their`, with `fresh`
/// as our next secret: the receiving chain comes from our old secret and
/// their new key, the sending chain from `fresh` and their new key.
pub open spec fn ratchet_step(s: RatchetView, their: Seq<u8>, fresh: Seq<u8>) -> RatchetView {
    let (root1, recv_key) = kdf_rk_spec(s.root_key, x25519_spec(s.our_dh_priv, their));
    let (root2, send_key) = kdf_rk_spec(root1, x25519_spec(fresh, their));
    RatchetView {
        root_key: root2,
        sending: fresh_chain(send_key),
        receiving: fresh_chain(recv_key),
        our_dh_priv: fresh,
        their_dh_pub: their,
    }
}

/// The initiator's first step, with `fresh` as its next secret: a new sending
/// chain from `fresh` and the responder's key; the receiving side is kept.
pub open spec fn pre_ratchet(s: RatchetView, fresh: Seq<u8>) -> RatchetView {
    let (root1, send_key) = kdf_rk_spec(s.root_key, x25519_spec(fresh, s.their_dh_pub));
    RatchetView {
        root_key: root1,
        sending: fresh_chain(send_key),
        receiving: s.receiving,
        our_dh_priv: fresh,
        their_dh_pub: s.their_dh_pub,
    }
}

/// The key of the first chain of a ratchet set up from `shared_secret`.
pub open spec fn initial_chain_key(shared_secret: Seq<u8>) -> Seq<u8> {
    hkdf_sha256(None, shared_secret, init_chain_label(), 32)
}

/// What decrypting message `n` under the peer's key `their` does to ratchet
/// `s`: a new peer key first steps the ratchet (with `after.our_dh_priv` as
/// our next secret); then the message key comes from the receiving chain, and
/// the plaintext, if any, is what that key opens.
pub open spec fn decrypt_step(s: RatchetView, n: u32, their: Seq<u8>, nonce: Seq<u8>, ct: Seq<u8>, after: RatchetView, out: Option<Seq<u8>>) -> bool {
    let s1 = if their != s.their_dh_pub { ratchet_step(s, their, after.our_dh_priv) } else { s };
    match receive_key(s1.receiving, n) {
        None => out is None && after == s1,
        Some((c, k)) => after == (RatchetView { receiving: c, ..s1 }) && out == aead_open(k, nonce, ct),
    }
}

impl DoubleRatchet {
    /// Encrypts with the next key of the sending chain. Returns the message
    /// number, the ciphertext, the nonce and our current ratchet public key.
    /// Fails without touching the ratchet once the sending counter is
    /// exhausted; fails after using up a key when the plaintext is too long.
    pub fn encrypt(&mut self, plaintext: &[u8]) -> (r: Result<(u32, Vec<u8>, [u8; 12], [u8; 32]), String>)
        ensures
            old(self)@.sending.message_number == u32::MAX ==> r is Err && final(self)@ == old(self)@,
            old(self)@.sending.message_number < u32::MAX ==> {
                &&& final(self)@ == (RatchetView {
                    sending: ChainView {
                        key: next_chain_key(old(self)@.sending.key),
                        message_number: (old(self)@.sending.message_number + 1) as u32,
                        skipped: old(self)@.sending.skipped,
                    },
                    ..old(self)@
                })
                &&& (r is Ok <==> plaintext@.len() < aead_plaintext_bound())
                &&& r matches Ok((n, c, nonce, pk)) ==> {
                    &&& n == old(self)@.sending.message_number + 1
                    &&& aead_seal(message_key_of(old(self)@.sending.key), nonce@, plaintext@) == Some(c@)
                    &&& aead_open(message_key_of(old(self)@.sending.key), nonce@, c@) == Some(plaintext@)
                    &&& pk@ == x25519_public(old(self)@.our_dh_priv)
                }
            },
    {
        if self.sending_chain.message_number == u32::MAX {
            return Err("sending chain exhausted".to_string());
        }
        let ghost before = self.sending_chain.skipped_keys@;
        let (message_number, message_key) = self.sending_chain.advance()?;
        assert(self.sending_chain@.skipped =~= before.map_values(|a: [u8; 32]| a@));
        let (ciphertext, nonce) = cipher::encrypt(plaintext, &message_key)?;
        let our_dh_pub = public_key_of(&self.our_dh_priv);
        Ok((message_number, ciphertext, nonce, our_dh_pub))
    }

    /// Decrypts message `message_number`, first stepping the ratchet when the
    /// peer shows a new public key.
    pub fn decrypt(
        &mut self,
        message_number: u32,
        their_dh_pub: [u8; 32],
        nonce: &[u8; 12],
        ciphertext: &[u8],
    ) -> (r: Result<Vec<u8>, String>)
        ensures
            decrypt_step(old(self)@, message_number, their_dh_pub@, nonce@, ciphertext@, final(self)@, match r {
                Ok(p) => Some(p@),
                Err(_) => None,
            }),
    {
        if !same_bytes(self.their_dh_pub.as_slice(), their_dh_pub.as_slice()) {
            self.dh_ratchet_step(their_dh_pub);
        }
        let ghost s1 = self@;
        let n = self.receiving_chain.message_number as u64;
        let message_key = if message_number as u64 == n + 1 {
            let ghost before = self.receiving_chain.skipped_keys@;
            let (_msg_num, message_key) = self.receiving_chain.advance()?;
            assert(self.receiving_chain@.skipped =~= before.map_values(|a: [u8; 32]| a@));
            message_key
        } else if message_number as u64 > n + 1 {
            self.receiving_chain.skip_to(message_number)?
        } else {
            match self.receiving_chain.try_skipped(message_number) {
                Some(k) => {
                    proof {
                        assert(self.receiving_chain@.skipped =~= s1.receiving.skipped.remove(message_number));
                    }
                    k
                },
                None => {
                    proof {
                        assert(self.receiving_chain@.skipped =~= s1.receiving.skipped);
                    }
                    return Err("Message number is too old".to_string());
                },
            }
        };
        cipher::decrypt(ciphertext, nonce, &message_key)
    }

    fn dh_ratchet_step(&mut self, their_new_dh_pub: [u8; 32])
        ensures
            final(self)@ == ratchet_step(old(self)@, their_new_dh_pub@, final(self)@.our_dh_priv),
    {
        let dh_recv = x25519(&self.our_dh_priv, &their_new_dh_pub);
        let (root_after_recv, new_receiving_chain_key) = kdf_rk(&self.root_key, &dh_recv);
        let our_new_secret = fresh_secret();
        let dh_send = x25519(&our_new_secret, &their_new_dh_pub);
        let (root_final, new_sending_chain_key) = kdf_rk(&root_after_recv, &dh_send);
        self.root_key = root_final;
        self.receiving_chain = Chain::fresh(new_receiving_chain_key);
        self.sending_chain = Chain::fresh(new_sending_chain_key);
        self.our_dh_priv = our_new_secret;
        self.their_dh_pub = their_new_dh_pub;
    }

    pub fn new(shared_secret: [u8; 32], our_dh_priv: [u8; 32], their_dh_pub: [u8; 32]) -> (r: Self)
        ensures
            r@ == (RatchetView {
                root_key: shared_secret@,
                sending: fresh_chain(initial_chain_key(shared_secret@)),
                receiving: fresh_chain(initial_chain_key(shared_secret@)),
                our_dh_priv: our_dh_priv@,
                their_dh_pub: their_dh_pub@,
            }),
    {
        let info = init_chain_bytes();
        let initial_chain_key = match derive_key(shared_secret.as_slice(), None, info.as_slice()) {
            Ok(k) => k,
            Err(_) => [0u8; 32],
        };
        DoubleRatchet {
            root_key: shared_secret,
            sending_chain: Chain::fresh(initial_chain_key),
            receiving_chain: Chain::fresh(initial_chain_key),
            our_dh_priv,
            their_dh_pub,
        }
    }

    /// The initiator's first sending step, taken before its first message.
    pub fn initiator_pre_ratchet(&mut self)
        ensures
            final(self)@ == pre_ratchet(old(self)@, final(self)@.our_dh_priv),
    {
        let our_new_secret = fresh_secret();
        let dh_send = x25519(&our_new_secret, &self.their_dh_pub);
        let (new_root, new_sending_chain_key) = kdf_rk(&self.root_key, &dh_send);
        self.root_key = new_root;
        self.sending_chain = Chain::fresh(new_sending_chain_key);
        self.our_dh_priv = our_new_secret;
    }
}

/// A receiving chain in step with a sending chain (same key, same count)
/// yields, for the sender's next message, the very key the sender used, and
/// both chains then stay in step.
pub proof fn lemma_chains_in_step(sending: ChainView, receiving: ChainView)
    requires
        sending.key == receiving.key,
        sending.message_number == receiving.message_number,
        sending.message_number < u32::MAX,
    ensures
        receive_key(receiving, (sending.message_number + 1) as u32) matches Some((c, k))
            && k == message_key_of(sending.key) && c.key == next_chain_key(sending.key)
            && c.message_number == sending.message_number + 1,
{
}

/// After the responder steps its ratchet on the initiator's new public key,
/// its receiving chain starts where the initiator's sending chain started,
/// provided both sides reach the same Diffie-Hellman value.
pub proof fn lemma_first_step_agrees(initiator: RatchetView, responder: RatchetView, fresh: Seq<u8>, their: Seq<u8>)
    requires
        initiator.root_key == responder.root_key,
        x25519_spec(responder.our_dh_priv, their) == x25519_spec(initiator.our_dh_priv, initiator.their_dh_pub),
    ensures
        ratchet_step(responder, their, fresh).receiving == fresh_chain(
            kdf_rk_spec(initiator.root_key, x25519_spec(initiator.our_dh_priv, initiator.their_dh_pub)).1,
        ),
{
}

/// The ratchet `DoubleRatchet::new` sets up from root key `rk`, our secret
/// `ours` and the peer's public key `theirs`.
pub open spec fn ratchet_from(rk: Seq<u8>, ours: Seq<u8>, theirs: Seq<u8>) -> RatchetView {
    RatchetView {
        root_key: rk,
        sending: fresh_chain(initial_chain_key(rk)),
        receiving: fresh_chain(initial_chain_key(rk)),
        our_dh_priv: ours,
        their_dh_pub: theirs,
    }
}

/// Send, then receive: two ratchets set up from the same root key, each
/// with its secret and the other's public key, talk. The initiator steps
/// first (fresh secret `fa`) and encrypts its first message under the key
/// of its sending chain; the responder, seeing the new key, steps too and
/// decrypts it to the plaintext. The same message a second time is refused
/// and leaves the responder as it was (no replay). This holds where the two
/// Diffie-Hellman values of the step agree, as X25519 makes them, and the
/// new key differs from the initiator's first.
pub proof fn lemma_send_then_receive(
    rk: Seq<u8>,
    a: Seq<u8>,
    b: Seq<u8>,
    fa: Seq<u8>,
    nonce: Seq<u8>,
    ct: Seq<u8>,
    pt: Seq<u8>,
    after: RatchetView,
    out: Option<Seq<u8>>,
    after2: RatchetView,
    out2: Option<Seq<u8>>,
)
    requires
        x25519_spec(b, x25519_public(fa)) == x25519_spec(fa, x25519_public(b)),
        x25519_public(fa) != x25519_public(a),
        aead_open(
            message_key_of(pre_ratchet(ratchet_from(rk, a, x25519_public(b)), fa).sending.key),
            nonce,
            ct,
        ) == Some(pt),
        decrypt_step(ratchet_from(rk, b, x25519_public(a)), 1, x25519_public(fa), nonce, ct, after, out),
        decrypt_step(after, 1, x25519_public(fa), nonce, ct, after2, out2),
    ensures
        out == Some(pt),
        out2 is None,
        after2 == after,
{
    let a1 = pre_ratchet(ratchet_from(rk, a, x25519_public(b)), fa);
    let b0 = ratchet_from(rk, b, x25519_public(a));
    let b1 = ratchet_step(b0, x25519_public(fa), after.our_dh_priv);
    assert(b1.receiving == a1.sending);
    assert(after.receiving.skipped == Map::<u32, Seq<u8>>::empty());
    assert(after.receiving.message_number == 1);
}

} // verus!
