//! A secure session between two devices: the Noise IK handshake that
//! authenticates them, the payloads exchanged inside it, and the double
//! ratchet that encrypts the messages afterwards.
//!
//! The initiator's handshake payload is
//! `[ratchet_pub: 32] [certificate: 128] [master_pubkey: 32] [address]`; the
//! responder's is `[ratchet_pub: 32] [certificate: 128]`. A message packet's
//! payload is
//! `[connection_id: 16] [message_number: u32 BE] [nonce: 12] [dh_pub: 32] [ciphertext]`,
//! the ciphertext sealing `[sender master key: 32] [message]`.

use vstd::prelude::*;
use crate::crypto::dh::{x25519_spec, x25519_public, x25519, public_key_of, fresh_secret};
use crate::crypto::handshake::{Initiator, Responder};
use crate::crypto::hkdf::{hkdf_sha256, hkdf_32, hkdf_sha256_expand};
use crate::crypto::labels::{connection_id_label, connection_id_bytes, ratchet_root_label, ratchet_root_bytes};
use crate::crypto::cipher::{aead_seal, aead_open};
use crate::crypto::ratchet::{DoubleRatchet, RatchetView, ChainView, fresh_chain, initial_chain_key, pre_ratchet,
    next_chain_key, message_key_of, decrypt_step, ratchet_step};
use crate::crypto::random::random_u128;
use crate::crypto::sha::{sha256, sha256_digest};
use crate::identity::certificates::{DeviceCertificate, CertificateView, certificate_wire, parse_certificate,
    certificate_valid};
use crate::identity::identity::UserID;
use crate::network::addr::{PeerAddr, addr_wire, parse_addr, write_addr, read_addr};
use crate::protocol::message::{Message, MessageView, message_wire, parse_message};
use crate::protocol::packet::{Packet, PacketView, CURRENT_VERSION};
use crate::protocol::payload::{Payload, PayloadTag, PayloadView};
use crate::protocol::wire::{be_u32, u32_of_be, push_u32, push_all, read_u32, copy_array, copy_range, copy_tail};

verus! {

/// The initiator's handshake payload.
pub open spec fn offer_wire(ratchet_pub: Seq<u8>, cert: CertificateView, master: Seq<u8>, addr: PeerAddr) -> Seq<u8> {
    ratchet_pub + certificate_wire(cert) + master + addr_wire(addr)
}

/// The responder's handshake payload.
pub open spec fn answer_wire(ratchet_pub: Seq<u8>, cert: CertificateView) -> Seq<u8> {
    ratchet_pub + certificate_wire(cert)
}

/// The root key both sides derive from the handshake hash and their ratchet keys.
pub open spec fn root_key_of(hash: Seq<u8>, our_priv: Seq<u8>, their_pub: Seq<u8>) -> Seq<u8> {
    hkdf_sha256(Some(hash), x25519_spec(our_priv, their_pub), ratchet_root_label(), 32)
}

/// The connection ID both sides derive from the handshake hash.
pub open spec fn connection_id_of(hash: Seq<u8>) -> Seq<u8> {
    hkdf_sha256(None, hash, connection_id_label(), 16)
}

/// A message packet's payload.
pub open spec fn message_frame(conn_id: Seq<u8>, n: u32, nonce: Seq<u8>, dh_pub: Seq<u8>, ciphertext: Seq<u8>) -> Seq<u8> {
    conn_id + be_u32(n) + nonce + dh_pub + ciphertext
}

/// Byte strings of equal length in lexicographic order, `a` first.
pub open spec fn bytes_lt(a: Seq<u8>, b: Seq<u8>) -> bool {
    exists|i: int| 0 <= i < a.len() && i < b.len() && a.subrange(0, i) == b.subrange(0, i) && #[trigger] a[i] < b[i]
}

/// The safety number of a session: SHA-256 of the handshake hash and both
/// master keys, the smaller key first.
pub open spec fn safety_number_of(hash: Seq<u8>, ours: Seq<u8>, theirs: Seq<u8>) -> Seq<u8> {
    if bytes_lt(ours, theirs) {
        sha256_digest(hash + ours + theirs)
    } else {
        sha256_digest(hash + theirs + ours)
    }
}

/// What the initiator's payload holds.
pub struct Offer {
    pub ratchet_pub: [u8; 32],
    pub certificate: DeviceCertificate,
    pub master_pubkey: [u8; 32],
    pub addr: PeerAddr,
}

/// The shortest initiator payload that is read.
pub const MIN_OFFER_LEN: usize = 199;

/// The initiator's handshake payload.
pub fn handshake_offer(ratchet_pub: &[u8; 32], cert: &DeviceCertificate, master: &[u8; 32], addr: &PeerAddr) -> (r: Vec<u8>)
    ensures
        r@ == offer_wire(ratchet_pub@, cert@, master@, *addr),
{
    let mut payload: Vec<u8> = Vec::new();
    push_all(&mut payload, ratchet_pub.as_slice());
    let c = cert.serialize();
    push_all(&mut payload, c.as_slice());
    push_all(&mut payload, master.as_slice());
    write_addr(addr, &mut payload);
    assert(payload@ =~= offer_wire(ratchet_pub@, cert@, master@, *addr));
    payload
}

/// The responder's handshake payload.
pub fn handshake_answer(ratchet_pub: &[u8; 32], cert: &DeviceCertificate) -> (r: Vec<u8>)
    ensures
        r@ == answer_wire(ratchet_pub@, cert@),
{
    let mut payload: Vec<u8> = Vec::new();
    push_all(&mut payload, ratchet_pub.as_slice());
    let c = cert.serialize();
    push_all(&mut payload, c.as_slice());
    payload
}

fn derive_connection_id(handshake_hash: &[u8; 32]) -> (r: [u8; 16])
    ensures
        r@ == connection_id_of(handshake_hash@),
{
    let info = connection_id_bytes();
    let v = hkdf_sha256_expand(None, handshake_hash.as_slice(), info.as_slice(), 16);
    let r: [u8; 16] = copy_array::<16>(v.as_slice(), 0);
    assert(v@.subrange(0, 16) =~= v@);
    r
}

fn derive_root_key(handshake_hash: &[u8; 32], our_ratchet_priv: &[u8; 32], their_ratchet_pub: &[u8; 32]) -> (r: [u8; 32])
    ensures
        r@ == root_key_of(handshake_hash@, our_ratchet_priv@, their_ratchet_pub@),
{
    let dh_output = x25519(our_ratchet_priv, their_ratchet_pub);
    let info = ratchet_root_bytes();
    hkdf_32(Some(handshake_hash.as_slice()), dh_output.as_slice(), info.as_slice())
}

/// Whether `a` comes before `b` in lexicographic order.
pub fn bytes_less(a: &[u8; 32], b: &[u8; 32]) -> (r: bool)
    ensures
        r == bytes_lt(a@, b@),
{
    let mut i: usize = 0;
    while i < 32
        invariant
            i <= 32,
            a@.subrange(0, i as int) == b@.subrange(0, i as int),
        decreases 32 - i,
    {
        if a[i] != b[i] {
            let r = a[i] < b[i];
            proof {
                if r {
                    assert(a@[i as int] < b@[i as int]);
                } else {
                    assert forall|j: int| 0 <= j < 32 && a@.subrange(0, j) == b@.subrange(0, j) implies !(#[trigger] a@[j] < b@[j]) by {
                        if j > i {
                            assert(a@.subrange(0, j)[i as int] == a@[i as int]);
                            assert(b@.subrange(0, j)[i as int] == b@[i as int]);
                        } else if j < i {
                            assert(a@.subrange(0, i as int)[j] == a@[j]);
                            assert(b@.subrange(0, i as int)[j] == b@[j]);
                        }
                    }
                }
            }
            return r;
        }
        assert(a@.subrange(0, i + 1) =~= a@.subrange(0, i as int).push(a@[i as int]));
        assert(b@.subrange(0, i + 1) =~= b@.subrange(0, i as int).push(b@[i as int]));
        i = i + 1;
    }
    proof {
        assert forall|j: int| 0 <= j < 32 && a@.subrange(0, j) == b@.subrange(0, j) implies !(#[trigger] a@[j] < b@[j]) by {
            assert(a@.subrange(0, 32)[j] == a@[j]);
            assert(b@.subrange(0, 32)[j] == b@[j]);
        }
    }
    false
}

/// Reads the initiator's payload: the certificate's key must be a valid
/// point, and the address must be one that `parse_addr` reads.
pub open spec fn parse_offer(b: Seq<u8>) -> Option<(Seq<u8>, CertificateView, Seq<u8>, PeerAddr)> {
    if b.len() < MIN_OFFER_LEN {
        None
    } else {
        match parse_certificate(b.subrange(32, 160)) {
            None => None,
            Some(cert) => match parse_addr(b.subrange(192, b.len() as int)) {
                None => None,
                Some((addr, _)) => Some((b.subrange(0, 32), cert, b.subrange(160, 192), addr)),
            },
        }
    }
}

/// Reading an initiator payload back gives what was written, when the
/// certificate's key is a valid point.
pub proof fn lemma_offer_roundtrip(ratchet_pub: Seq<u8>, cert: CertificateView, master: Seq<u8>, addr: PeerAddr)
    requires
        ratchet_pub.len() == 32,
        master.len() == 32,
        cert.device_ed25519_pubkey.len() == 32,
        cert.device_x25519_pubkey.len() == 32,
        cert.master_signature.len() == 64,
        crate::crypto::sign::ed25519_point_valid(cert.device_ed25519_pubkey),
    ensures
        parse_offer(offer_wire(ratchet_pub, cert, master, addr)) == Some((ratchet_pub, cert, master, addr)),
{
    let w = offer_wire(ratchet_pub, cert, master, addr);
    crate::identity::certificates::lemma_certificate_roundtrip(cert);
    assert(w.subrange(0, 32) =~= ratchet_pub);
    assert(w.subrange(32, 160) =~= certificate_wire(cert));
    assert(w.subrange(160, 192) =~= master);
    assert(w.subrange(192, w.len() as int) =~= addr_wire(addr) + Seq::<u8>::empty());
    crate::network::addr::lemma_addr_roundtrip(addr, Seq::<u8>::empty());
    assert(addr_wire(addr).len() >= 7);
}

/// Reads the initiator's payload.
pub fn read_offer(payload: &[u8]) -> (r: Result<Offer, String>)
    ensures
        match parse_offer(payload@) {
            None => r is Err,
            Some((rp, cert, master, addr)) => r matches Ok(o) && o.ratchet_pub@ == rp && o.certificate@ == cert
                && o.master_pubkey@ == master && o.addr == addr,
        },
{
    if payload.len() < MIN_OFFER_LEN {
        return Err("handshake payload too short".to_string());
    }
    let ratchet_pub: [u8; 32] = copy_array::<32>(payload, 0);
    let cert_bytes = copy_range(payload, 32, 128);
    let certificate = match DeviceCertificate::from_serialized(cert_bytes) {
        Ok(c) => c,
        Err(_) => return Err("bad peer device certificate".to_string()),
    };
    let master_pubkey: [u8; 32] = copy_array::<32>(payload, 160);
    let addr = match read_addr(payload, 192) {
        Some((a, _)) => a,
        None => return Err("truncated or unknown addr".to_string()),
    };
    Ok(Offer { ratchet_pub, certificate, master_pubkey, addr })
}

proof fn lemma_bytes_lt_order(a: Seq<u8>, b: Seq<u8>)
    requires
        a.len() == b.len(),
    ensures
        a != b ==> (bytes_lt(a, b) || bytes_lt(b, a)),
        !(bytes_lt(a, b) && bytes_lt(b, a)),
{
    if a != b {
        assert(exists|i: int| 0 <= i < a.len() && a[i] != b[i]) by {
            if !(exists|i: int| 0 <= i < a.len() && a[i] != b[i]) {
                assert(a =~= b);
            }
        }
        let m = choose|i: int| 0 <= i < a.len() && a[i] != b[i] && forall|j: int| 0 <= j < i ==> a[j] == b[j];
        assert(exists|i: int| 0 <= i < a.len() && a[i] != b[i] && forall|j: int| 0 <= j < i ==> a[j] == b[j]) by {
            let k = choose|i: int| 0 <= i < a.len() && a[i] != b[i];
            lemma_first_difference(a, b, k);
        }
        assert(a.subrange(0, m) =~= b.subrange(0, m));
        if a[m] < b[m] {
            assert(bytes_lt(a, b));
        } else {
            assert(bytes_lt(b, a));
        }
    }
    if bytes_lt(a, b) && bytes_lt(b, a) {
        let i = choose|i: int| 0 <= i < a.len() && i < b.len() && a.subrange(0, i) == b.subrange(0, i) && #[trigger] a[i] < b[i];
        let j = choose|j: int| 0 <= j < b.len() && j < a.len() && b.subrange(0, j) == a.subrange(0, j) && #[trigger] b[j] < a[j];
        if i < j {
            assert(b.subrange(0, j)[i] == a.subrange(0, j)[i]);
        } else if j < i {
            assert(a.subrange(0, i)[j] == b.subrange(0, i)[j]);
        }
    }
}

proof fn lemma_first_difference(a: Seq<u8>, b: Seq<u8>, k: int)
    requires
        a.len() == b.len(),
        0 <= k < a.len(),
        a[k] != b[k],
    ensures
        exists|i: int| 0 <= i < a.len() && a[i] != b[i] && forall|j: int| 0 <= j < i ==> a[j] == b[j],
    decreases k,
{
    if exists|j: int| 0 <= j < k && a[j] != b[j] {
        let j = choose|j: int| 0 <= j < k && a[j] != b[j];
        lemma_first_difference(a, b, j);
    } else {
        assert(forall|j: int| 0 <= j < k ==> a[j] == b[j]);
    }
}

/// Both ends of a session compute the same safety number: it does not
/// depend on which master key is ours.
pub proof fn lemma_safety_number_symmetric(hash: Seq<u8>, a: Seq<u8>, b: Seq<u8>)
    requires
        a.len() == b.len(),
    ensures
        safety_number_of(hash, a, b) == safety_number_of(hash, b, a),
{
    lemma_bytes_lt_order(a, b);
}

/// What starting the handshake does to a session: without our master key
/// nothing happens and it fails; otherwise a fresh ratchet key is kept, and
/// only an initiator can succeed.
pub open spec fn initiate_outcome(old: SessionView, new: SessionView, ok: bool) -> bool {
    match old.our_master_pubkey {
        None => !ok && new == old,
        Some(_) => {
            &&& new.our_ratchet_dh_priv matches Some(k) && k.len() == 32
            &&& new == (SessionView { our_ratchet_dh_priv: new.our_ratchet_dh_priv, ..old })
            &&& !old.initiating ==> !ok
        },
    }
}

/// What sending message `m` does to a session, and the packet it gives:
/// with our master key and a ratchet, the sending chain moves one step and
/// the packet carries the sealed master key and message; the sending chain
/// never wraps around.
pub open spec fn send_outcome(old: SessionView, m: MessageView, new: SessionView, r: Option<PacketView>) -> bool {
    match (old.our_master_pubkey, old.ratchet) {
        (Some(master), Some(rv)) => {
            let pt = master + message_wire(m);
            if rv.sending.message_number == u32::MAX {
                r is None && new == old
            } else {
                &&& new == (SessionView { ratchet: Some(after_send(rv)), ..old })
                &&& (r is Some <==> (old.connection_id is Some && pt.len() < crate::crypto::cipher::aead_plaintext_bound()))
                &&& r matches Some(p) ==> (old.connection_id matches Some(conn)
                    && p.version == CURRENT_VERSION && p.flags == 0
                    && p.payload.tag == PayloadTag::Message && p.payload.fragment_id == 0
                    && exists|nonce: Seq<u8>| #[trigger] sent_frame(rv, conn, pt, nonce) == Some(p.payload.data)
                        && nonce.len() == 12
                        && aead_open(message_key_of(rv.sending.key), nonce, p.payload.data.subrange(64, p.payload.data.len() as int)) == Some(pt))
            }
        },
        _ => r is None && new == old,
    }
}

/// What receiving packet `p` does to a session, and the sender's master key
/// and message it gives: a message packet moves the ratchet as decryption
/// says; anything else changes nothing and gives nothing.
pub open spec fn receive_outcome(old: SessionView, p: PacketView, new: SessionView, r: Option<(MessageView, Seq<u8>)>) -> bool {
    let d = p.payload.data;
    if p.payload.tag != PayloadTag::Message || d.len() < 64 || old.ratchet is None {
        r is None && new == old
    } else {
        exists|out: Option<Seq<u8>>| #[trigger] decrypt_step(old.ratchet->0, u32_of_be(d.subrange(16, 20)),
            d.subrange(32, 64), d.subrange(20, 32), d.subrange(64, d.len() as int), new.ratchet->0, out)
            && new == (SessionView { ratchet: new.ratchet, ..old })
            && new.ratchet is Some
            && match out {
                None => r is None,
                Some(pt) => match opened_message(pt) {
                    None => r is None,
                    Some((pk, m)) => r == Some((m, pk)),
                },
            }
    }
}

pub struct Session {
    initiator: Option<Initiator>,
    responder: Option<Responder>,
    ratchet: Option<DoubleRatchet>,
    handshake_hash: Option<[u8; 32]>,
    remote_static: Option<[u8; 32]>,
    our_ratchet_dh_priv: Option<[u8; 32]>,
    their_ratchet_dh_pub: Option<[u8; 32]>,
    our_device_certificate: DeviceCertificate,
    our_master_pubkey: Option<[u8; 32]>,
    peer_device_certificate: Option<DeviceCertificate>,
    peer_user_id: Option<UserID>,
    peer_master_pubkey: Option<[u8; 32]>,
    peer_addr: Option<PeerAddr>,
    connection_id: Option<[u8; 16]>,
    finish_log: Ghost<Option<(Seq<u8>, Option<(Seq<u8>, Seq<u8>, Seq<u8>)>)>>,
    accept_log: Ghost<Option<(Seq<u8>, Option<Seq<u8>>)>>,
    reply_log: Ghost<Option<Option<(Seq<u8>, Seq<u8>, Seq<u8>)>>>,
}

pub open spec fn opt_arr32(o: Option<[u8; 32]>) -> Option<Seq<u8>> {
    match o {
        Some(a) => Some(a@),
        None => None,
    }
}

pub struct SessionView {
    /// The initiator's handshake is under way.
    pub initiating: bool,
    /// The responder's handshake is under way.
    pub responding: bool,
    pub ratchet: Option<RatchetView>,
    pub handshake_hash: Option<Seq<u8>>,
    pub remote_static: Option<Seq<u8>>,
    pub our_ratchet_dh_priv: Option<Seq<u8>>,
    pub their_ratchet_dh_pub: Option<Seq<u8>>,
    pub our_certificate: CertificateView,
    pub our_master_pubkey: Option<Seq<u8>>,
    pub peer_certificate: Option<CertificateView>,
    pub peer_user_id: Option<Seq<u8>>,
    pub peer_master_pubkey: Option<Seq<u8>>,
    pub peer_addr: Option<PeerAddr>,
    pub connection_id: Option<Seq<u8>>,
    /// The responder's message the initiator's handshake read, and what the
    /// Noise step gave for it: the handshake hash, the peer's static key and
    /// the peer's payload (`None` when it refused the message).
    pub finish_log: Option<(Seq<u8>, Option<(Seq<u8>, Seq<u8>, Seq<u8>)>)>,
    /// The initiator's message the responder's handshake read, and the
    /// payload it carried (`None` when the Noise step refused it).
    pub accept_log: Option<(Seq<u8>, Option<Seq<u8>>)>,
    /// What the responder's Noise reply step gave: the message written, the
    /// handshake hash and the peer's static key (`None` when it failed).
    pub reply_log: Option<Option<(Seq<u8>, Seq<u8>, Seq<u8>)>>,
}

impl View for Session {
    type V = SessionView;

    closed spec fn view(&self) -> SessionView {
        SessionView {
            initiating: self.initiator is Some,
            responding: self.responder is Some,
            ratchet: match self.ratchet {
                Some(r) => Some(r@),
                None => None,
            },
            handshake_hash: opt_arr32(self.handshake_hash),
            remote_static: opt_arr32(self.remote_static),
            our_ratchet_dh_priv: opt_arr32(self.our_ratchet_dh_priv),
            their_ratchet_dh_pub: opt_arr32(self.their_ratchet_dh_pub),
            our_certificate: self.our_device_certificate@,
            our_master_pubkey: opt_arr32(self.our_master_pubkey),
            peer_certificate: match self.peer_device_certificate {
                Some(c) => Some(c@),
                None => None,
            },
            peer_user_id: match self.peer_user_id {
                Some(u) => Some(u.public_key@),
                None => None,
            },
            peer_master_pubkey: opt_arr32(self.peer_master_pubkey),
            peer_addr: self.peer_addr,
            connection_id: match self.connection_id {
                Some(c) => Some(c@),
                None => None,
            },
            finish_log: self.finish_log@,
            accept_log: self.accept_log@,
            reply_log: self.reply_log@,
        }
    }
}

/// The ratchet a session starts from.
pub open spec fn initial_ratchet(root: Seq<u8>, our_priv: Seq<u8>, their_pub: Seq<u8>) -> RatchetView {
    RatchetView {
        root_key: root,
        sending: fresh_chain(initial_chain_key(root)),
        receiving: fresh_chain(initial_chain_key(root)),
        our_dh_priv: our_priv,
        their_dh_pub: their_pub,
    }
}

/// The payload of the message that ratchet `rv` sends for `plaintext` with
/// `nonce`, if the plaintext can be sealed.
pub open spec fn sent_frame(rv: RatchetView, conn: Seq<u8>, plaintext: Seq<u8>, nonce: Seq<u8>) -> Option<Seq<u8>> {
    match aead_seal(message_key_of(rv.sending.key), nonce, plaintext) {
        Some(ct) => Some(message_frame(conn, (rv.sending.message_number + 1) as u32, nonce, x25519_public(rv.our_dh_priv), ct)),
        None => None,
    }
}

/// The ratchet after sending one message.
pub open spec fn after_send(rv: RatchetView) -> RatchetView {
    RatchetView {
        sending: ChainView {
            key: next_chain_key(rv.sending.key),
            message_number: (rv.sending.message_number + 1) as u32,
            skipped: rv.sending.skipped,
        },
        ..rv
    }
}

/// How the initiator's session ends its handshake, given what the finished
/// handshake gave: its hash, the peer's static key, and the peer's payload.
pub open spec fn completed(old: SessionView, new: SessionView, hash: Seq<u8>, remote: Seq<u8>, payload: Seq<u8>) -> bool {
    let their = payload.subrange(0, 32);
    &&& payload.len() >= 160
    &&& parse_certificate(payload.subrange(32, payload.len() as int)) matches Some(cert)
    &&& cert.device_x25519_pubkey == remote
    &&& (old.peer_user_id matches Some(id) ==> certificate_valid(cert, id))
    &&& old.our_ratchet_dh_priv matches Some(k)
    &&& new.ratchet matches Some(rv)
    &&& rv == pre_ratchet(initial_ratchet(root_key_of(hash, k, their), k, their), rv.our_dh_priv)
    &&& new == (SessionView {
        initiating: false,
        ratchet: new.ratchet,
        handshake_hash: Some(hash),
        remote_static: Some(remote),
        peer_certificate: Some(cert),
        connection_id: Some(connection_id_of(hash)),
        ..old
    })
}

/// Why the initiator's session refuses what its finished handshake gave
/// (its hash, the peer's static key and the peer's payload), in the order
/// the checks are made; `None` when it accepts it.
pub open spec fn finish_refusal(old: SessionView, remote: Seq<u8>, payload: Seq<u8>) -> Option<Seq<char>> {
    if payload.len() < 160 {
        Some("handshake payload too short for certificate"@)
    } else {
        match parse_certificate(payload.subrange(32, payload.len() as int)) {
            None => Some("bad peer device certificate"@),
            Some(cert) => if cert.device_x25519_pubkey != remote {
                Some("peer certificate x25519 key doesn't match handshake"@)
            } else if old.peer_user_id matches Some(id) && !certificate_valid(cert, id) {
                Some("peer device certificate signature invalid"@)
            } else if old.our_ratchet_dh_priv is None {
                Some("ratchet key not set"@)
            } else {
                None
            },
        }
    }
}

/// Why the responder's session refuses what its finished handshake gave
/// (the peer's static key), in the order the checks are made; `None` when
/// it accepts it.
pub open spec fn reply_refusal(old: SessionView, remote: Seq<u8>) -> Option<Seq<char>> {
    match old.peer_certificate {
        None => Some("peer certificate not set"@),
        Some(cert) => if cert.device_x25519_pubkey != remote {
            Some("peer certificate x25519 key doesn't match handshake"@)
        } else if old.their_ratchet_dh_pub is None {
            Some("peer ratchet key not set"@)
        } else if old.our_ratchet_dh_priv is None {
            Some("ratchet key not set"@)
        } else {
            None
        },
    }
}

/// The responder's session once its handshake gave `hash` and the peer's
/// static key `remote`: the ratchet starts from the root key of the hash
/// and both ratchet keys, and the connection ID follows from the hash.
pub open spec fn reply_set_up(old: SessionView, hash: Seq<u8>, remote: Seq<u8>) -> SessionView {
    let k = old.our_ratchet_dh_priv->0;
    let their = old.their_ratchet_dh_pub->0;
    SessionView {
        ratchet: Some(initial_ratchet(root_key_of(hash, k, their), k, their)),
        handshake_hash: Some(hash),
        remote_static: Some(remote),
        connection_id: Some(connection_id_of(hash)),
        ..old
    }
}

/// The bytes of a reply that went out, if one did.
pub open spec fn sent_bytes(r: Result<Vec<u8>, String>) -> Option<Seq<u8>> {
    match r {
        Ok(v) => Some(v@),
        Err(_) => None,
    }
}

/// The initiator's session after its handshake read the responder's
/// message `response`, for which the Noise step gave `n` (the hash, the
/// peer's static key and its payload; `None` when it refused the message):
/// the step is logged, the handshake is over, and the session comes up
/// (`ok`) exactly when `n` is there and `finish_refusal` finds nothing.
pub open spec fn finish_step(old: SessionView, response: Seq<u8>, n: Option<(Seq<u8>, Seq<u8>, Seq<u8>)>, new: SessionView, ok: bool) -> bool {
    let logged = SessionView { initiating: false, finish_log: Some((response, n)), ..old };
    match n {
        None => !ok && new == logged,
        Some(x) => match finish_refusal(logged, x.1, x.2) {
            Some(_) => !ok && new == logged,
            None => ok && completed(logged, new, x.0, x.1, x.2),
        },
    }
}

/// The responder's session after its handshake read the initiator's
/// message `incoming`, which the Noise step opened to payload `n` (`None`
/// when it refused it): the step is logged, then the payload is read as
/// `accepted` says.
pub open spec fn accept_step(old: SessionView, incoming: Seq<u8>, n: Option<Seq<u8>>, new: SessionView, ok: bool) -> bool {
    let logged = SessionView { accept_log: Some((incoming, n)), ..old };
    match n {
        None => !ok && new == logged,
        Some(pl) => accepted(logged, pl, new, ok),
    }
}

/// The responder's session after its reply step with the fresh ratchet key
/// `k`, for which the Noise step gave `n` (the message written, the hash and
/// the peer's static key; `None` when it failed): the step is logged, the
/// handshake is over, and the message `sent` goes out exactly when `n` is
/// there and `reply_refusal` finds nothing.
pub open spec fn reply_outcome(old: SessionView, k: Seq<u8>, n: Option<(Seq<u8>, Seq<u8>, Seq<u8>)>, new: SessionView, sent: Option<Seq<u8>>) -> bool {
    let logged = SessionView { responding: false, our_ratchet_dh_priv: Some(k), reply_log: Some(n), ..old };
    match n {
        None => sent is None && new == logged,
        Some(x) => match reply_refusal(logged, x.2) {
            Some(_) => sent is None && new == logged,
            None => sent == Some(x.0) && new == reply_set_up(logged, x.1, x.2),
        },
    }
}

/// What the responder's session takes from the initiator's payload: the
/// ratchet key, then the certificate and master key, then the address; a
/// part that fails to read ends the reading with what was taken so far.
pub open spec fn accepted(old: SessionView, payload: Seq<u8>, new: SessionView, ok: bool) -> bool {
    if payload.len() < MIN_OFFER_LEN {
        !ok && new == old
    } else {
        let s1 = SessionView { their_ratchet_dh_pub: Some(payload.subrange(0, 32)), ..old };
        match parse_certificate(payload.subrange(32, 160)) {
            None => !ok && new == s1,
            Some(cert) => {
                let s2 = SessionView { peer_certificate: Some(cert), peer_master_pubkey: Some(payload.subrange(160, 192)), ..s1 };
                match parse_addr(payload.subrange(192, payload.len() as int)) {
                    None => !ok && new == s2,
                    Some((addr, _)) => ok && new == (SessionView { peer_addr: Some(addr), ..s2 }),
                }
            },
        }
    }
}


/// What a received message payload yields once decrypted: the sender's
/// master key and the message.
pub open spec fn opened_message(pt: Seq<u8>) -> Option<(Seq<u8>, MessageView)> {
    if pt.len() < 72 {
        None
    } else {
        match parse_message(pt.subrange(32, pt.len() as int)) {
            None => None,
            Some(m) => Some((pt.subrange(0, 32), m)),
        }
    }
}

/// A session's handshake hash is set by its completing handshake, and only
/// by it: starting or accepting a handshake, sending or receiving leave it
/// unset, the initiator's
/// last step sets it exactly when the session comes up, and the responder's
/// reply step exactly when its reply goes out. Since `safety_number` is
/// `None` exactly when the hash is unset, a session that never completed a
/// handshake has no safety number, and one that did has one.
pub proof fn lemma_hash_set_by_completion(
    old: SessionView,
    new: SessionView,
    msg: Seq<u8>,
    k: Seq<u8>,
    fin: Option<(Seq<u8>, Seq<u8>, Seq<u8>)>,
    acc: Option<Seq<u8>>,
    rep: Option<(Seq<u8>, Seq<u8>, Seq<u8>)>,
    ok: bool,
    sent: Option<Seq<u8>>,
    m: MessageView,
    p: PacketView,
    out: Option<PacketView>,
    got: Option<(MessageView, Seq<u8>)>,
)
    requires
        old.handshake_hash is None,
    ensures
        initiate_outcome(old, new, ok) ==> new.handshake_hash is None,
        send_outcome(old, m, new, out) ==> new.handshake_hash is None,
        receive_outcome(old, p, new, got) ==> new.handshake_hash is None,
        accept_step(old, msg, acc, new, ok) ==> new.handshake_hash is None,
        finish_step(old, msg, fin, new, ok) ==> (new.handshake_hash is Some <==> ok),
        reply_outcome(old, k, rep, new, sent) ==> (new.handshake_hash is Some <==> sent is Some),
{
}

impl Session {
    pub fn new_initiator(
        our_device_x25519_priv: &[u8; 32],
        peer_device_x25519_pub: &[u8; 32],
        our_cert: DeviceCertificate,
        our_master_pubkey: [u8; 32],
        peer_user_id: UserID,
    ) -> (r: Result<Session, String>)
        ensures
            r is Ok,
            r matches Ok(s) ==> s@ == (SessionView {
                initiating: true,
                responding: false,
                ratchet: None,
                handshake_hash: None,
                remote_static: None,
                our_ratchet_dh_priv: None,
                their_ratchet_dh_pub: None,
                our_certificate: our_cert@,
                our_master_pubkey: Some(our_master_pubkey@),
                peer_certificate: None,
                peer_user_id: Some(peer_user_id.public_key@),
                peer_master_pubkey: None,
                peer_addr: None,
                connection_id: None,
                finish_log: None,
                accept_log: None,
                reply_log: None,
            }),
    {
        let initiator = Initiator::new(our_device_x25519_priv.as_slice(), peer_device_x25519_pub.as_slice())?;
        Ok(Session {
            initiator: Some(initiator),
            responder: None,
            ratchet: None,
            handshake_hash: None,
            remote_static: None,
            our_ratchet_dh_priv: None,
            their_ratchet_dh_pub: None,
            our_device_certificate: our_cert,
            our_master_pubkey: Some(our_master_pubkey),
            peer_device_certificate: None,
            peer_user_id: Some(peer_user_id),
            peer_master_pubkey: None,
            peer_addr: None,
            connection_id: None,
            finish_log: Ghost(None),
            accept_log: Ghost(None),
            reply_log: Ghost(None),
        })
    }

    pub fn new_responder(our_device_x25519_priv: &[u8; 32], our_cert: DeviceCertificate, our_master_pubkey: [u8; 32]) -> (r: Result<Self, String>)
        ensures
            r is Ok,
            r matches Ok(s) ==> s@ == (SessionView {
                initiating: false,
                responding: true,
                ratchet: None,
                handshake_hash: None,
                remote_static: None,
                our_ratchet_dh_priv: None,
                their_ratchet_dh_pub: None,
                our_certificate: our_cert@,
                our_master_pubkey: Some(our_master_pubkey@),
                peer_certificate: None,
                peer_user_id: None,
                peer_master_pubkey: None,
                peer_addr: None,
                connection_id: None,
                finish_log: None,
                accept_log: None,
                reply_log: None,
            }),
    {
        let responder = Responder::new(our_device_x25519_priv.as_slice())?;
        Ok(Session {
            initiator: None,
            responder: Some(responder),
            ratchet: None,
            handshake_hash: None,
            remote_static: None,
            our_ratchet_dh_priv: None,
            their_ratchet_dh_pub: None,
            our_device_certificate: our_cert,
            our_master_pubkey: Some(our_master_pubkey),
            peer_device_certificate: None,
            peer_user_id: None,
            peer_master_pubkey: None,
            peer_addr: None,
            connection_id: None,
            finish_log: Ghost(None),
            accept_log: Ghost(None),
            reply_log: Ghost(None),
        })
    }

    /// The first handshake message. It carries `handshake_offer` with a
    /// fresh ratchet key, which the session keeps.
    pub fn initiate_handshake(&mut self, our_addr: PeerAddr) -> (r: Result<Vec<u8>, String>)
        ensures
            initiate_outcome(old(self)@, final(self)@, r is Ok),
    {
        let master = match self.our_master_pubkey {
            Some(m) => m,
            None => return Err("master pubkey not set".to_string()),
        };
        let ratchet_secret = fresh_secret();
        let ratchet_pub = public_key_of(&ratchet_secret);
        let payload = handshake_offer(&ratchet_pub, &self.our_device_certificate, &master, &our_addr);
        self.our_ratchet_dh_priv = Some(ratchet_secret);
        let mut initiator = match self.initiator.take() {
            None => return Err("Session is not an initiator".to_string()),
            Some(i) => i,
        };
        let r = initiator.initiate(payload);
        self.initiator = Some(initiator);
        r
    }

    /// Reads the responder's reply and sets up the ratchet; the handshake is
    /// used up whatever the outcome. The reply is read by `snow`, which
    /// decides whether it opens; what follows is `finish_with`.
    pub fn complete_handshake(&mut self, response: &[u8]) -> (r: Result<(), String>)
        ensures
            old(self)@.initiating ==> exists|n: Option<(Seq<u8>, Seq<u8>, Seq<u8>)>|
                #[trigger] finish_step(old(self)@, response@, n, final(self)@, r is Ok),
            !old(self)@.initiating ==> r is Err && final(self)@ == old(self)@,
    {
        let mut initiator = match self.initiator.take() {
            Some(i) => i,
            None => return Err("Session is not an initiator".to_string()),
        };
        let result = match initiator.finish(response) {
            Ok(res) => res,
            Err(e) => {
                self.finish_log = Ghost(Some((response@, None)));
                assert(finish_step(old(self)@, response@, None, self@, false));
                return Err(e);
            },
        };
        let ghost n = Some((result.handshake_hash@, result.remote_static@, result.peer_payload@));
        self.finish_log = Ghost(Some((response@, n)));
        let r = self.finish_with(result.handshake_hash, result.remote_static, result.peer_payload.as_slice());
        assert(finish_step(old(self)@, response@, n, self@, r is Ok));
        r
    }

    /// Ends the initiator's handshake with what it gave: its hash, the
    /// peer's static key `remote` and the peer's payload (its ratchet key,
    /// then its device certificate). The certificate must hold `remote` and,
    /// when the peer's identity is known, be signed by it; then the ratchet
    /// starts. Either way the handshake is over.
    pub fn finish_with(&mut self, hash: [u8; 32], remote: [u8; 32], payload: &[u8]) -> (r: Result<(), String>)
        ensures
            match finish_refusal(old(self)@, remote@, payload@) {
                Some(e) => r matches Err(m) && m@ == e
                    && final(self)@ == (SessionView { initiating: false, ..old(self)@ }),
                None => r is Ok && completed(old(self)@, final(self)@, hash@, remote@, payload@),
            },
    {
        self.initiator = None;
        if payload.len() < 160 {
            return Err("handshake payload too short for certificate".to_string());
        }
        let their_ratchet_pub: [u8; 32] = copy_array::<32>(payload, 0);
        let cert_bytes = copy_tail(payload, 32);
        let peer_cert = match DeviceCertificate::from_serialized(cert_bytes) {
            Ok(c) => c,
            Err(_) => return Err("bad peer device certificate".to_string()),
        };
        if !crate::protocol::wire::same_bytes(peer_cert.device_x25519_pubkey.as_slice(), remote.as_slice()) {
            return Err("peer certificate x25519 key doesn't match handshake".to_string());
        }
        match &self.peer_user_id {
            Some(peer_id) => {
                if !peer_cert.verify(peer_id) {
                    return Err("peer device certificate signature invalid".to_string());
                }
            },
            None => {},
        }
        let our_priv = match self.our_ratchet_dh_priv {
            Some(k) => k,
            None => return Err("ratchet key not set".to_string()),
        };
        let ghost old_view = old(self)@;
        self.peer_device_certificate = Some(peer_cert);
        let root_key = derive_root_key(&hash, &our_priv, &their_ratchet_pub);
        let mut ratchet = DoubleRatchet::new(root_key, our_priv, their_ratchet_pub);
        ratchet.initiator_pre_ratchet();
        self.ratchet = Some(ratchet);
        self.handshake_hash = Some(hash);
        self.remote_static = Some(remote);
        self.connection_id = Some(derive_connection_id(&hash));
        assert(completed(old_view, self@, hash@, remote@, payload@));
        Ok(())
    }

    /// Reads the initiator's first message, then what its payload holds
    /// (see `accept_offer`). The message is read by `snow`, which decides
    /// whether it opens; when it does not, the session is left as it was.
    pub fn accept_handshake(&mut self, incoming: &[u8]) -> (r: Result<(), String>)
        ensures
            old(self)@.responding ==> exists|n: Option<Seq<u8>>|
                #[trigger] accept_step(old(self)@, incoming@, n, final(self)@, r is Ok),
            !old(self)@.responding ==> r is Err && final(self)@ == old(self)@,
    {
        let mut resp = match self.responder.take() {
            None => return Err("Session is not a responder".to_string()),
            Some(r) => r,
        };
        let accepted_payload = resp.accept(incoming);
        self.responder = Some(resp);
        let peer_payload = match accepted_payload {
            Ok(p) => p,
            Err(e) => {
                self.accept_log = Ghost(Some((incoming@, None)));
                assert(accept_step(old(self)@, incoming@, None, self@, false));
                return Err(e);
            },
        };
        self.accept_log = Ghost(Some((incoming@, Some(peer_payload@))));
        let r = self.accept_offer(peer_payload.as_slice());
        assert(accept_step(old(self)@, incoming@, Some(peer_payload@), self@, r is Ok));
        r
    }

    /// Takes what the initiator's handshake payload holds: its ratchet key,
    /// its device certificate and master key, then its address. A part that
    /// fails to read ends the reading with what was taken so far.
    pub fn accept_offer(&mut self, payload: &[u8]) -> (r: Result<(), String>)
        ensures
            accepted(old(self)@, payload@, final(self)@, r is Ok),
    {
        let p = payload;
        if p.len() < MIN_OFFER_LEN {
            let res: Result<(), String> = Err("handshake payload too short".to_string());
            assert(accepted(old(self)@, p@, self@, res is Ok));
            return res;
        }
        let pubkey: [u8; 32] = copy_array::<32>(p, 0);
        self.their_ratchet_dh_pub = Some(pubkey);
        let cert_bytes = copy_range(p, 32, 128);
        let peer_cert = match DeviceCertificate::from_serialized(cert_bytes) {
            Ok(c) => c,
            Err(_) => {
                let res: Result<(), String> = Err("bad peer device certificate".to_string());
                assert(accepted(old(self)@, p@, self@, res is Ok));
                return res;
            },
        };
        self.peer_device_certificate = Some(peer_cert);
        let master_pubkey: [u8; 32] = copy_array::<32>(p, 160);
        self.peer_master_pubkey = Some(master_pubkey);
        match read_addr(p, 192) {
            Some((addr, _)) => {
                self.peer_addr = Some(addr);
                let res: Result<(), String> = Ok(());
                assert(accepted(old(self)@, p@, self@, res is Ok));
                res
            },
            None => {
                let res: Result<(), String> = Err("truncated or unknown addr".to_string());
                assert(accepted(old(self)@, p@, self@, res is Ok));
                res
            },
        }
    }

    /// Whether `reply_handshake` has what it reads: a responder's session
    /// holds the initiator's certificate and ratchet key once it accepted.
    pub fn reply_ready(&self) -> (r: bool)
        ensures
            r == (self@.responding ==> self@.peer_certificate is Some && self@.their_ratchet_dh_pub is Some),
    {
        self.responder.is_none() || (self.peer_device_certificate.is_some() && self.their_ratchet_dh_pub.is_some())
    }

    /// The reply message, carrying `handshake_answer` with a fresh ratchet
    /// key; sets up the ratchet. The handshake is used up whatever the outcome.
    pub fn reply_handshake(&mut self) -> (r: Result<Vec<u8>, String>)
        requires
            old(self)@.responding ==> old(self)@.peer_certificate is Some && old(self)@.their_ratchet_dh_pub is Some,
        ensures
            final(self)@.our_ratchet_dh_priv matches Some(k) && k.len() == 32 && ({
                &&& old(self)@.responding ==> exists|n: Option<(Seq<u8>, Seq<u8>, Seq<u8>)>|
                    #[trigger] reply_outcome(old(self)@, k, n, final(self)@, sent_bytes(r))
                &&& !old(self)@.responding ==> r is Err
                    && final(self)@ == (SessionView { our_ratchet_dh_priv: Some(k), ..old(self)@ })
            }),
    {
        let ratchet_secret = fresh_secret();
        let ratchet_pub = public_key_of(&ratchet_secret);
        let payload = handshake_answer(&ratchet_pub, &self.our_device_certificate);
        self.our_ratchet_dh_priv = Some(ratchet_secret);
        let mut responder = match self.responder.take() {
            Some(r) => r,
            None => return Err("Session is not a responder".to_string()),
        };
        let (outgoing_message, result) = match responder.reply(payload) {
            Ok(v) => v,
            Err(e) => {
                self.reply_log = Ghost(Some(None));
                let r: Result<Vec<u8>, String> = Err(e);
                assert(reply_outcome(old(self)@, ratchet_secret@, None, self@, sent_bytes(r)));
                return r;
            },
        };
        let ghost n = Some((outgoing_message@, result.handshake_hash@, result.remote_static@));
        self.reply_log = Ghost(Some(n));
        let r = match self.reply_with(result.handshake_hash, result.remote_static) {
            Ok(()) => Ok(outgoing_message),
            Err(e) => Err(e),
        };
        assert(reply_outcome(old(self)@, ratchet_secret@, n, self@, sent_bytes(r)));
        r
    }

    /// Ends the responder's handshake with what it gave: its hash and the
    /// peer's static key `remote`, which must be the key of the certificate
    /// the initiator sent; then the ratchet starts from both ratchet keys.
    pub fn reply_with(&mut self, hash: [u8; 32], remote: [u8; 32]) -> (r: Result<(), String>)
        ensures
            match reply_refusal(old(self)@, remote@) {
                Some(e) => r matches Err(m) && m@ == e && final(self)@ == old(self)@,
                None => r is Ok && final(self)@ == reply_set_up(old(self)@, hash@, remote@),
            },
    {
        let cert = match &self.peer_device_certificate {
            Some(c) => *c,
            None => return Err("peer certificate not set".to_string()),
        };
        if !crate::protocol::wire::same_bytes(cert.device_x25519_pubkey.as_slice(), remote.as_slice()) {
            return Err("peer certificate x25519 key doesn't match handshake".to_string());
        }
        let their = match self.their_ratchet_dh_pub {
            Some(t) => t,
            None => return Err("peer ratchet key not set".to_string()),
        };
        let ours = match self.our_ratchet_dh_priv {
            Some(k) => k,
            None => return Err("ratchet key not set".to_string()),
        };
        let root_key = derive_root_key(&hash, &ours, &their);
        self.ratchet = Some(DoubleRatchet::new(root_key, ours, their));
        self.handshake_hash = Some(hash);
        self.remote_static = Some(remote);
        self.connection_id = Some(derive_connection_id(&hash));
        Ok(())
    }

    pub fn connection_id(&self) -> (r: Option<[u8; 16]>)
        ensures
            match r {
                Some(c) => self@.connection_id == Some(c@),
                None => self@.connection_id is None,
            },
    {
        self.connection_id
    }

    pub fn is_initiator(&self) -> (r: bool)
        ensures
            r == self@.initiating,
    {
        self.initiator.is_some()
    }

    pub fn is_established(&self) -> (r: bool)
        ensures
            r == self@.ratchet is Some,
    {
        self.ratchet.is_some()
    }

    /// Whether the peer's certificate is signed by `peer_id`.
    pub fn verify_peer(&self, peer_id: &UserID) -> (r: bool)
        ensures
            r == (self@.peer_certificate matches Some(c) && certificate_valid(c, peer_id.public_key@)),
    {
        match &self.peer_device_certificate {
            Some(cert) => cert.verify(peer_id),
            None => false,
        }
    }

    /// The Noise-authenticated static key of the peer, after the handshake.
    pub fn peer_static(&self) -> (r: Option<[u8; 32]>)
        ensures
            opt_arr32(r) == self@.remote_static,
    {
        self.remote_static
    }

    pub fn peer_master_pubkey(&self) -> (r: Option<[u8; 32]>)
        ensures
            opt_arr32(r) == self@.peer_master_pubkey,
    {
        self.peer_master_pubkey
    }

    pub fn peer_certificate(&self) -> (r: Option<&DeviceCertificate>)
        ensures
            match r {
                Some(c) => self@.peer_certificate == Some(c@),
                None => self@.peer_certificate is None,
            },
    {
        match &self.peer_device_certificate {
            Some(c) => Some(c),
            None => None,
        }
    }

    pub fn peer_addr(&self) -> (r: Option<PeerAddr>)
        ensures
            r == self@.peer_addr,
    {
        self.peer_addr
    }

    /// Encrypts `message`, behind our master key, as a message packet.
    pub fn send(&mut self, message: &Message) -> (r: Result<Packet, String>)
        ensures
            send_outcome(old(self)@, message@, final(self)@, match r {
                Ok(p) => Some(p@),
                Err(_) => None,
            }),
    {
        let master = match self.our_master_pubkey {
            Some(m) => m,
            None => return Err("master pubkey not set".to_string()),
        };
        let body = match message.serialize() {
            Ok(b) => b,
            Err(_) => return Err("message serialization failed".to_string()),
        };
        let mut plaintext: Vec<u8> = Vec::new();
        push_all(&mut plaintext, master.as_slice());
        push_all(&mut plaintext, body.as_slice());
        assert(plaintext@ =~= master@ + message_wire(message@));
        let mut ratchet = match self.ratchet.take() {
            Some(r) => r,
            None => return Err("Session not established".to_string()),
        };
        let sealed = ratchet.encrypt(plaintext.as_slice());
        self.ratchet = Some(ratchet);
        let (n, ciphertext, nonce, our_dh_pub) = match sealed {
            Ok(v) => v,
            Err(e) => return Err(e),
        };
        let conn_id = match self.connection_id {
            Some(c) => c,
            None => return Err("connection ID not set".to_string()),
        };
        let mut data: Vec<u8> = Vec::new();
        push_all(&mut data, conn_id.as_slice());
        push_u32(&mut data, n);
        push_all(&mut data, nonce.as_slice());
        push_all(&mut data, our_dh_pub.as_slice());
        push_all(&mut data, ciphertext.as_slice());
        assert(data@ =~= message_frame(conn_id@, n, nonce@, our_dh_pub@, ciphertext@));
        let p = Packet::new(0, random_u128(), Payload::new(PayloadTag::Message, data));
        proof {
            let rv = old(self)@.ratchet->0;
            let master_v = old(self)@.our_master_pubkey->0;
            let pt = master_v + message_wire(message@);
            assert(pt == plaintext@);
            assert(sent_frame(rv, conn_id@, pt, nonce@) == Some(p@.payload.data));
            assert(self@ == (SessionView { ratchet: Some(after_send(rv)), ..old(self)@ }));
            assert(rv.sending.message_number != u32::MAX);
            assert(pt.len() < crate::crypto::cipher::aead_plaintext_bound());
            let conn = old(self)@.connection_id->0;
            assert(conn == conn_id@);
            assert(sent_frame(rv, conn, pt, nonce@) == Some(p@.payload.data));
            assert(p@.payload.data.subrange(64, p@.payload.data.len() as int) =~= ciphertext@);
            assert(aead_open(message_key_of(rv.sending.key), nonce@, p@.payload.data.subrange(64, p@.payload.data.len() as int)) == Some(pt));
        }
        Ok(p)
    }

    /// Decrypts a message packet; returns the message and the sender's
    /// master key that it carries.
    pub fn receive(&mut self, packet: &Packet) -> (r: Result<(Message, [u8; 32]), String>)
        ensures
            receive_outcome(old(self)@, packet@, final(self)@, match r {
                Ok((m, k)) => Some((m@, k@)),
                Err(_) => None,
            }),
    {
        if !matches!(packet.payload.tag, PayloadTag::Message) {
            return Err("expected Message payload".to_string());
        }
        let data = packet.payload.data.as_slice();
        if data.len() < 64 {
            return Err("packet too short".to_string());
        }
        let n = read_u32(data, 16);
        let nonce: [u8; 12] = copy_array::<12>(data, 20);
        let their_dh_pub: [u8; 32] = copy_array::<32>(data, 32);
        let ciphertext = copy_tail(data, 64);
        let mut ratchet = match self.ratchet.take() {
            Some(r) => r,
            None => return Err("Session not established".to_string()),
        };
        let ghost rv0 = ratchet@;
        let opened = ratchet.decrypt(n, their_dh_pub, &nonce, ciphertext.as_slice());
        let ghost rv1 = ratchet@;
        self.ratchet = Some(ratchet);
        let ghost out = match &opened {
            Ok(p) => Some(p@),
            Err(_) => None::<Seq<u8>>,
        };
        proof {
            let d = packet@.payload.data;
            assert(d.subrange(16, 20) =~= data@.subrange(16, 20));
            assert(nonce@ == d.subrange(20, 32));
            assert(their_dh_pub@ == d.subrange(32, 64));
            assert(ciphertext@ == d.subrange(64, d.len() as int));
            assert(decrypt_step(rv0, n, their_dh_pub@, nonce@, ciphertext@, rv1, out));
            assert(decrypt_step(old(self)@.ratchet->0, u32_of_be(d.subrange(16, 20)), d.subrange(32, 64), d.subrange(20, 32),
                d.subrange(64, d.len() as int), self@.ratchet->0, out));
            assert(self@ == (SessionView { ratchet: self@.ratchet, ..old(self)@ }));
        }
        let plaintext = match opened {
            Ok(p) => p,
            Err(_) => return Err("Couldn't decrypt the message".to_string()),
        };
        if plaintext.len() < 72 {
            return Err("plaintext too short for sender key and message".to_string());
        }
        let sender_pk: [u8; 32] = copy_array::<32>(plaintext.as_slice(), 0);
        let rest = copy_tail(plaintext.as_slice(), 32);
        match Message::from_serialized(rest) {
            Ok(m) => Ok((m, sender_pk)),
            Err(_) => Err("invalid message".to_string()),
        }
    }

    /// The safety number both devices compute for this session, once the
    /// handshake is done.
    pub fn safety_number(&self, our_master_ed25519_pub: &[u8; 32], peer_master_ed25519_pub: &[u8; 32]) -> (r: Option<[u8; 32]>)
        ensures
            match self@.handshake_hash {
                None => r is None,
                Some(h) => r matches Some(s) && s@ == safety_number_of(h, our_master_ed25519_pub@, peer_master_ed25519_pub@),
            },
    {
        let hash = match self.handshake_hash {
            Some(h) => h,
            None => return None,
        };
        let ours_first = bytes_less(our_master_ed25519_pub, peer_master_ed25519_pub);
        let mut data: Vec<u8> = Vec::new();
        push_all(&mut data, hash.as_slice());
        if ours_first {
            push_all(&mut data, our_master_ed25519_pub.as_slice());
            push_all(&mut data, peer_master_ed25519_pub.as_slice());
        } else {
            push_all(&mut data, peer_master_ed25519_pub.as_slice());
            push_all(&mut data, our_master_ed25519_pub.as_slice());
        }
        Some(sha256(data.as_slice()))
    }
}

/// Send, then receive, between the two sessions of one handshake. The
/// initiator `sa` came up with ratchet key `ka` (and stepped to `fa` before
/// sending), the responder `sb` with ratchet key `kb`, both from handshake
/// hash `h`, each with the other's ratchet public key. A message the
/// initiator sends is received by the responder as that message, from the
/// initiator's master key. This holds where the X25519 values each side
/// computes agree, as X25519 makes them, and the stepped key differs from
/// the first.
pub proof fn lemma_session_send_then_receive(
    h: Seq<u8>,
    ka: Seq<u8>,
    kb: Seq<u8>,
    fa: Seq<u8>,
    sa: SessionView,
    sb: SessionView,
    m: MessageView,
    p: PacketView,
    sa2: SessionView,
    sb2: SessionView,
    got: Option<(MessageView, Seq<u8>)>,
)
    requires
        x25519_spec(ka, x25519_public(kb)) == x25519_spec(kb, x25519_public(ka)),
        x25519_spec(kb, x25519_public(fa)) == x25519_spec(fa, x25519_public(kb)),
        x25519_public(fa) != x25519_public(ka),
        sa.our_master_pubkey matches Some(mk) && mk.len() == 32,
        sa.connection_id matches Some(c) && c.len() == 16,
        sa.ratchet == Some(pre_ratchet(initial_ratchet(root_key_of(h, ka, x25519_public(kb)), ka, x25519_public(kb)), fa)),
        sb.ratchet == Some(initial_ratchet(root_key_of(h, kb, x25519_public(ka)), kb, x25519_public(ka))),
        x25519_public(fa).len() == 32,
        m.reply_to != Some(0u128),
        send_outcome(sa, m, sa2, Some(p)),
        receive_outcome(sb, p, sb2, got),
    ensures
        got == Some((m, sa.our_master_pubkey->0)),
{
    let mk = sa.our_master_pubkey->0;
    let conn = sa.connection_id->0;
    let rva = sa.ratchet->0;
    let rvb = sb.ratchet->0;
    let pt = mk + message_wire(m);
    let d = p.payload.data;
    let nonce = choose|nonce: Seq<u8>| #[trigger] sent_frame(rva, conn, pt, nonce) == Some(d)
        && nonce.len() == 12
        && aead_open(message_key_of(rva.sending.key), nonce, d.subrange(64, d.len() as int)) == Some(pt);
    let ct = d.subrange(64, d.len() as int);
    let sealed = aead_seal(message_key_of(rva.sending.key), nonce, pt)->0;
    assert(d == message_frame(conn, 1, nonce, x25519_public(fa), sealed));
    crate::protocol::wire::lemma_u32_be_roundtrip(1);
    assert(d.subrange(16, 20) =~= be_u32(1));
    assert(d.subrange(20, 32) =~= nonce);
    assert(d.subrange(32, 64) =~= x25519_public(fa));
    let rk = root_key_of(h, ka, x25519_public(kb));
    assert(root_key_of(h, kb, x25519_public(ka)) == rk);
    let after = sb2.ratchet->0;
    let b1 = ratchet_step(rvb, x25519_public(fa), after.our_dh_priv);
    assert(b1.receiving == rva.sending);
    crate::protocol::message::lemma_message_roundtrip(m);
    assert(pt.subrange(32, pt.len() as int) =~= message_wire(m));
    assert(pt.subrange(0, 32) =~= mk);
}

} // verus!
