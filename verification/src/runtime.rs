//! The decisions of the node's event loop that do not wait on the network:
//! which queue a packet belongs to, which DHT packets a running lookup
//! leaves for the server, under which key a contact record is published,
//! how packets are wrapped for the relay, and the table of sessions that
//! handshake and message packets are dispatched to.

use vstd::prelude::*;
use crate::crypto::labels::{contact_label, contact_bytes};
use crate::crypto::sha::{sha256, sha256_digest};
use crate::assoc::{assoc_get, assoc_insert, keys_distinct, lemma_assoc_insert, lemma_assoc_get, lemma_assoc_insert_get,
    lemma_filter_remove_one};
use crate::dht::protocol::{DhtOperation, op_wire};
use crate::dht::record::contact::{ContactRecord, ContactView, contact_wire, parse_contact, ends_after_list};
use crate::dht::record::record::{Record, RecordTag, RecordView, record_wire, parse_record};
use crate::identity::devices::DeviceList;
use crate::identity::certificates::DeviceCertificate;
use crate::identity::identity::UserID;
use crate::network::addr::PeerAddr;
use crate::network::registry::{derive_id, relay_id_of};
use crate::network::relay::{RelayFrame, RelayFrameView, relay_frame_wire};
use crate::protocol::message::{Message, MessageView};
use crate::protocol::packet::{Packet, PacketView, CURRENT_VERSION, packet_wire};
use crate::protocol::payload::{Payload, PayloadTag, PayloadView};
use crate::protocol::session::{Session, SessionView, opt_arr32, sent_bytes, finish_step, accept_step, reply_outcome, connection_id_of,
    initiate_outcome, send_outcome, receive_outcome, safety_number_of};
use crate::protocol::wire::{push_all, same_bytes, copy_array, copy_tail};

verus! {

/// The queues incoming packets are sorted into.
#[derive(Copy, Clone, PartialEq, Eq, Structural, Debug)]
pub enum Lane {
    Dht,
    Relay,
    Handshake,
    Message,
}

/// The queue a payload tag goes to; other tags are dropped.
pub open spec fn lane_of(tag: PayloadTag) -> Option<Lane> {
    match tag {
        PayloadTag::DhtOperation => Some(Lane::Dht),
        PayloadTag::RelayFrame => Some(Lane::Relay),
        PayloadTag::Handshake => Some(Lane::Handshake),
        PayloadTag::Message => Some(Lane::Message),
        _ => None,
    }
}

pub fn lane_for(tag: PayloadTag) -> (r: Option<Lane>)
    ensures
        r == lane_of(tag),
{
    match tag {
        PayloadTag::DhtOperation => Some(Lane::Dht),
        PayloadTag::RelayFrame => Some(Lane::Relay),
        PayloadTag::Handshake => Some(Lane::Handshake),
        PayloadTag::Message => Some(Lane::Message),
        _ => None,
    }
}

/// Whether a running lookup leaves this DHT packet alone: queries (Ping,
/// FindNode, Store, FindValue) and the responses it does not wait for (Pong,
/// StoreAck), by their tag byte.
pub open spec fn skipped_by_lookup(data: Seq<u8>) -> bool {
    data.len() > 0 && (data[0] == 1 || data[0] == 2 || data[0] == 3 || data[0] == 5 || data[0] == 6 || data[0] == 7)
}

pub fn skip_in_lookup(packet: &Packet) -> (r: bool)
    ensures
        r == skipped_by_lookup(packet@.payload.data),
{
    let data = packet.payload.data.as_slice();
    if data.len() == 0 {
        return false;
    }
    let t = data[0];
    t == 1 || t == 2 || t == 3 || t == 5 || t == 6 || t == 7
}

/// The DHT key of a user's contact record: SHA-256 of `"contact"` and the
/// user's master public key.
pub open spec fn contact_key_of(master_pubkey: Seq<u8>) -> Seq<u8> {
    sha256_digest(contact_label() + master_pubkey)
}

pub fn contact_key_for(master_pubkey: &[u8; 32]) -> (r: [u8; 32])
    ensures
        r@ == contact_key_of(master_pubkey@),
{
    let label = contact_bytes();
    let mut data: Vec<u8> = Vec::new();
    push_all(&mut data, label.as_slice());
    push_all(&mut data, master_pubkey.as_slice());
    sha256(data.as_slice())
}

/// The DHT value a device publishes: its contact record, tagged as one.
pub fn contact_value(device_list: DeviceList, relay_addr: PeerAddr, relay_id: u128) -> (r: Vec<u8>)
    ensures
        r@ == record_wire(RecordView {
            tag: RecordTag::Contact,
            data: contact_wire(ContactView { device_list: device_list@, relay_addr, relay_id }),
        }),
{
    let contact = ContactRecord::new(device_list, relay_addr, relay_id);
    let record = Record::new(RecordTag::Contact, contact.serialize());
    record.serialize()
}

/// Reads the contact record that a DHT value holds.
pub fn contact_from_value(value: Vec<u8>) -> (r: Result<ContactRecord, String>)
    requires
        !(parse_record(value@) matches Some(rec) && ends_after_list(rec.data)),
    ensures
        match parse_record(value@) {
            None => r is Err,
            Some(rec) => match parse_contact(rec.data) {
                None => r is Err,
                Some(c) => r matches Ok(x) && x@ == c,
            },
        },
{
    let record = Record::from_serialized(value)?;
    match record.tag {
        RecordTag::Contact => ContactRecord::from_serialized(record.data),
    }
}

/// A packet that carries `inner` to the peer with master key `peer_pk`
/// through its relay: a relay frame addressed to the peer's relay ID.
pub fn relay_packet(inner: &Packet, peer_pk: &[u8; 32], id: u128) -> (r: Packet)
    ensures
        r@ == (PacketView {
            version: CURRENT_VERSION,
            flags: 0,
            id,
            payload: PayloadView {
                tag: PayloadTag::RelayFrame,
                data: relay_frame_wire(RelayFrameView { dest_id: relay_id_of(peer_pk@), payload: packet_wire(inner@) }),
                fragment_id: 0,
                fragment_index: 0,
                fragment_total: 0,
            },
        }),
{
    let frame = RelayFrame::new(derive_id(peer_pk), inner.serialize());
    Packet::new(0, id, Payload::new(PayloadTag::RelayFrame, frame.serialize()))
}

/// The packet that carries a DHT operation.
pub fn dht_packet(op: &DhtOperation, id: u128) -> (r: Packet)
    ensures
        r@ == (PacketView {
            version: CURRENT_VERSION,
            flags: 0,
            id,
            payload: PayloadView { tag: PayloadTag::DhtOperation, data: op_wire(op@), fragment_id: 0, fragment_index: 0, fragment_total: 0 },
        }),
{
    Packet::new(0, id, Payload::new(PayloadTag::DhtOperation, op.serialize()))
}

/// The list as plain values: each key by its bytes.
pub open spec fn keyed_view<const N: usize, V: View>(s: Seq<([u8; N], V)>) -> Seq<(Seq<u8>, V::V)> {
    s.map_values(|e: ([u8; N], V)| (e.0@, e.1@))
}

/// Position of key `k` in a list of keyed values.
fn find_key<const N: usize, V: View>(v: &Vec<([u8; N], V)>, k: &[u8; N]) -> (r: Option<usize>)
    ensures
        match r {
            None => forall|j: int| 0 <= j < v@.len() ==> (#[trigger] keyed_view(v@)[j]).0 != k@,
            Some(i) => i < v@.len() && keyed_view(v@)[i as int].0 == k@,
        },
{
    let mut i: usize = 0;
    while i < v.len()
        invariant
            i <= v@.len(),
            forall|j: int| 0 <= j < i ==> (#[trigger] keyed_view(v@)[j]).0 != k@,
        decreases v@.len() - i,
    {
        if same_bytes(v[i].0.as_slice(), k.as_slice()) {
            return Some(i);
        }
        i = i + 1;
    }
    None
}

/// Sets the value of key `k`, in place if the key is listed.
fn put<const N: usize, V: View>(v: &mut Vec<([u8; N], V)>, k: [u8; N], x: V)
    requires
        keys_distinct(keyed_view(old(v)@)),
    ensures
        keys_distinct(keyed_view(final(v)@)),
        keyed_view(final(v)@) == assoc_insert(keyed_view(old(v)@), k@, x@),
{
    let ghost s = keyed_view(v@);
    proof {
        lemma_assoc_insert(s, k@, x@);
    }
    match find_key(v, &k) {
        Some(i) => {
            v.set(i, (k, x));
            assert(keyed_view(v@) =~= s.update(i as int, (k@, x@)));
        },
        None => {
            v.push((k, x));
            assert(keyed_view(v@) =~= s.push((k@, x@)));
            assert(!(exists|j: int| 0 <= j < s.len() && #[trigger] s[j].0 == k@));
        },
    }
}

/// A handshake under way: the session, and for an initiator the master key
/// of the peer it expects.
pub struct PendingSession {
    pub session: Session,
    pub peer_pk: Option<[u8; 32]>,
}

impl View for PendingSession {
    type V = (SessionView, Option<Seq<u8>>);

    open spec fn view(&self) -> (SessionView, Option<Seq<u8>>) {
        (self.session@, opt_arr32(self.peer_pk))
    }
}

/// The sessions of a node: handshakes under way by their tag, established
/// sessions by connection ID, and which peer each connection is with.
pub struct SessionTable {
    pending: Vec<([u8; 16], PendingSession)>,
    sessions: Vec<([u8; 16], Session)>,
    pk_to_conn: Vec<([u8; 32], [u8; 16])>,
    conn_to_pk: Vec<([u8; 16], [u8; 32])>,
}

pub struct TableView {
    pub pending: Seq<(Seq<u8>, (SessionView, Option<Seq<u8>>))>,
    pub sessions: Seq<(Seq<u8>, SessionView)>,
    pub pk_to_conn: Seq<(Seq<u8>, Seq<u8>)>,
    pub conn_to_pk: Seq<(Seq<u8>, Seq<u8>)>,
}

impl View for SessionTable {
    type V = TableView;

    closed spec fn view(&self) -> TableView {
        TableView {
            pending: keyed_view(self.pending@),
            sessions: keyed_view(self.sessions@),
            pk_to_conn: keyed_view(self.pk_to_conn@),
            conn_to_pk: keyed_view(self.conn_to_pk@),
        }
    }
}

/// Every list keyed once per key; no handshake under way is a responder's;
/// every peer's connection is an established session.
pub open spec fn table_wf(t: TableView) -> bool {
    &&& keys_distinct(t.pending)
    &&& keys_distinct(t.sessions)
    &&& keys_distinct(t.pk_to_conn)
    &&& keys_distinct(t.conn_to_pk)
    &&& forall|i: int| 0 <= i < t.pending.len() ==> !(#[trigger] t.pending[i]).1.0.responding
    &&& forall|i: int| 0 <= i < t.pk_to_conn.len() ==> assoc_get(t.sessions, (#[trigger] t.pk_to_conn[i]).1) is Some
}

pub open spec fn zeros(n: nat) -> Seq<u8> {
    Seq::new(n, |i: int| 0u8)
}

/// The key held, or zeros of length `n` when there is none.
pub open spec fn or_zeros(o: Option<Seq<u8>>, n: nat) -> Seq<u8> {
    match o {
        Some(k) => k,
        None => zeros(n),
    }
}

pub open spec fn pending_other_than(tag: Seq<u8>) -> spec_fn((Seq<u8>, (SessionView, Option<Seq<u8>>))) -> bool {
    |e: (Seq<u8>, (SessionView, Option<Seq<u8>>))| e.0 != tag
}

/// The table after session `sv` with the peer whose master key is `pk`
/// comes up on connection `conn`.
pub open spec fn with_session(t: TableView, conn: Seq<u8>, sv: SessionView, pk: Seq<u8>) -> TableView {
    TableView {
        pending: t.pending,
        sessions: assoc_insert(t.sessions, conn, sv),
        pk_to_conn: assoc_insert(t.pk_to_conn, pk, conn),
        conn_to_pk: assoc_insert(t.conn_to_pk, conn, pk),
    }
}

/// What a handshake packet asks of the node: the packet data to send back
/// and the master key of the peer it goes to, the device key to trust for
/// the sender's acknowledgements, and the connection that came up.
pub struct HandshakeReaction {
    pub reply: Option<(Vec<u8>, [u8; 32])>,
    pub peer_device_key: Option<[u8; 32]>,
    pub established: Option<[u8; 16]>,
}

pub struct ReactionView {
    pub reply: Option<(Seq<u8>, Seq<u8>)>,
    pub peer_device_key: Option<Seq<u8>>,
    pub established: Option<Seq<u8>>,
}

impl View for HandshakeReaction {
    type V = ReactionView;

    open spec fn view(&self) -> ReactionView {
        ReactionView {
            reply: match self.reply {
                Some((d, k)) => Some((d@, k@)),
                None => None,
            },
            peer_device_key: opt_arr32(self.peer_device_key),
            established: match self.established {
                Some(c) => Some(c@),
                None => None,
            },
        }
    }
}

pub open spec fn no_reaction() -> ReactionView {
    ReactionView { reply: None, peer_device_key: None, established: None }
}

/// The initiator's handshake under `tag` completed with session `sv2`: the
/// session is established under its connection ID, for the peer whose
/// master key the handshake was started for.
pub open spec fn initiator_came_up(t: TableView, tag: Seq<u8>, sv2: SessionView, t2: TableView, r: ReactionView) -> bool {
    let e = assoc_get(t.pending, tag)->0;
    &&& t2 == with_session(TableView { pending: t.pending.filter(pending_other_than(tag)), ..t },
        sv2.connection_id->0, sv2, or_zeros(e.1, 32))
    &&& r == (ReactionView {
        reply: None,
        peer_device_key: Some(sv2.peer_certificate->0.device_ed25519_pubkey),
        established: Some(sv2.connection_id->0),
    })
}

/// The packet data of a responder's reply: the tag, then the message.
pub open spec fn reply_data(tag: Seq<u8>, sent: Option<Seq<u8>>, to: Seq<u8>) -> Option<(Seq<u8>, Seq<u8>)> {
    match sent {
        Some(m) => Some((tag + m, to)),
        None => None,
    }
}

/// The fresh responder `fresh`, if any, takes the handshake message `msg`:
/// when it accepts it, it answers (the reply is the tag and its message,
/// for the initiator's master key, and goes out exactly when its reply step
/// gave one) and its session is kept under its connection ID; when it does
/// not accept it, or is no responder, nothing happens.
pub open spec fn responder_came_up(t: TableView, tag: Seq<u8>, msg: Seq<u8>, fresh: Option<SessionView>, t2: TableView, r: ReactionView) -> bool {
    match fresh {
        None => t2 == t && r == no_reaction(),
        Some(s0) => !s0.responding && t2 == t && r == no_reaction() || s0.responding && exists|na: Option<Seq<u8>>, s1: SessionView, ok: bool| {
            &&& #[trigger] accept_step(s0, msg, na, s1, ok)
            &&& !ok ==> t2 == t && r == no_reaction()
            &&& ok ==> exists|k: Seq<u8>, nr: Option<(Seq<u8>, Seq<u8>, Seq<u8>)>, s2: SessionView, sent: Option<Seq<u8>>| {
                &&& #[trigger] reply_outcome(s1, k, nr, s2, sent)
                &&& t2 == with_session(t, or_zeros(s2.connection_id, 16), s2, s1.peer_master_pubkey->0)
                &&& r == (ReactionView {
                    reply: reply_data(tag, sent, s1.peer_master_pubkey->0),
                    peer_device_key: Some(s1.peer_certificate->0.device_ed25519_pubkey),
                    established: Some(or_zeros(s2.connection_id, 16)),
                })
            }
        },
    }
}

/// What handshake packet data `d` does to table `t`, given the fresh
/// responder session on hand, if any. The data is a 16-byte tag and the
/// handshake message. An initiator waiting under that tag reads it first:
/// its session comes up exactly when its handshake step succeeds; when it
/// does not (and the initiator, failed, stays under its tag), or when no
/// initiator waits, the fresh responder takes the message.
pub open spec fn handshake_outcome(t: TableView, d: Seq<u8>, fresh: Option<SessionView>, t2: TableView, r: ReactionView) -> bool {
    if d.len() < 16 {
        t2 == t && r == no_reaction()
    } else {
        let tag = d.subrange(0, 16);
        let msg = d.subrange(16, d.len() as int);
        if assoc_get(t.pending, tag) matches Some(e) && e.0.initiating {
            let e = assoc_get(t.pending, tag)->0;
            exists|n: Option<(Seq<u8>, Seq<u8>, Seq<u8>)>, sv2: SessionView, ok: bool| {
                &&& #[trigger] finish_step(e.0, msg, n, sv2, ok)
                &&& ok ==> initiator_came_up(t, tag, sv2, t2, r)
                &&& !ok ==> responder_came_up(
                    TableView { pending: assoc_insert(t.pending, tag, (sv2, e.1)), ..t },
                    tag,
                    msg,
                    fresh,
                    t2,
                    r,
                )
            }
        } else {
            responder_came_up(t, tag, msg, fresh, t2, r)
        }
    }
}

pub open spec fn opt_received(r: Option<(Message, [u8; 32])>) -> Option<(MessageView, Seq<u8>)> {
    match r {
        Some((m, k)) => Some((m@, k@)),
        None => None,
    }
}

pub open spec fn opt_packet(r: Result<Packet, String>) -> Option<PacketView> {
    match r {
        Ok(p) => Some(p@),
        Err(_) => None,
    }
}

impl SessionTable {
    pub closed spec fn wf(&self) -> bool {
        table_wf(self@)
    }

    pub fn new() -> (r: Self)
        ensures
            r.wf(),
            r@.pending.len() == 0,
            r@.sessions.len() == 0,
            r@.pk_to_conn.len() == 0,
            r@.conn_to_pk.len() == 0,
    {
        let r = SessionTable { pending: Vec::new(), sessions: Vec::new(), pk_to_conn: Vec::new(), conn_to_pk: Vec::new() };
        assert(r@.pending =~= Seq::empty());
        assert(r@.sessions =~= Seq::empty());
        assert(r@.pk_to_conn =~= Seq::empty());
        assert(r@.conn_to_pk =~= Seq::empty());
        r
    }

    /// Puts an initiator's session under `tag`, for the peer with master key
    /// `peer_pk`.
    fn add_pending(&mut self, tag: [u8; 16], session: Session, peer_pk: Option<[u8; 32]>)
        requires
            old(self).wf(),
            !session@.responding,
        ensures
            final(self).wf(),
            final(self)@ == (TableView {
                pending: assoc_insert(old(self)@.pending, tag@, (session@, opt_arr32(peer_pk))),
                ..old(self)@
            }),
    {
        let ghost t = self@;
        let ghost e = (session@, opt_arr32(peer_pk));
        put(&mut self.pending, tag, PendingSession { session, peer_pk });
        proof {
            lemma_assoc_insert(t.pending, tag@, e);
            let p2 = self@.pending;
            assert forall|i: int| 0 <= i < p2.len() implies !(#[trigger] p2[i]).1.0.responding by {
                if exists|j: int| 0 <= j < t.pending.len() && #[trigger] t.pending[j].0 == tag@ {
                    let j = choose|j: int| 0 <= j < t.pending.len() && #[trigger] t.pending[j].0 == tag@;
                    assert(p2 == t.pending.update(j, (tag@, e)));
                    if i != j {
                        assert(p2[i] == t.pending[i]);
                    }
                } else {
                    assert(p2 == t.pending.push((tag@, e)));
                    if i < t.pending.len() {
                        assert(p2[i] == t.pending[i]);
                    }
                }
            }
        }
    }

    /// Sets up an initiator's session with the peer `peer_user_id`, whose
    /// device key is `peer_device_x25519_pub`, under `tag`; fails without
    /// our master key, or when the handshake cannot be built.
    pub fn enable_session_initiator(
        &mut self,
        our_device_x25519_priv: &[u8; 32],
        peer_device_x25519_pub: &[u8; 32],
        our_cert: DeviceCertificate,
        our_master_pubkey: Option<[u8; 32]>,
        peer_user_id: UserID,
        tag: [u8; 16],
    ) -> (r: Result<[u8; 16], String>)
        requires
            old(self).wf(),
        ensures
            final(self).wf(),
            r is Err <==> our_master_pubkey is None,
            r is Err ==> final(self)@ == old(self)@,
            r matches Ok(t) ==> t == tag && exists|sv: SessionView| {
                &&& sv.initiating && !sv.responding
                &&& sv.ratchet is None && sv.connection_id is None
                &&& sv.our_master_pubkey == opt_arr32(our_master_pubkey)
                &&& sv.our_certificate == our_cert@
                &&& sv.peer_user_id == Some(peer_user_id.public_key@)
                &&& #[trigger] final(self)@ == (TableView {
                    pending: assoc_insert(old(self)@.pending, tag@, (sv, Some(peer_user_id.public_key@))),
                    ..old(self)@
                })
            },
    {
        let master = match our_master_pubkey {
            Some(m) => m,
            None => return Err("master pubkey not set".to_string()),
        };
        let peer_pk = peer_user_id.public_key;
        let session = Session::new_initiator(our_device_x25519_priv, peer_device_x25519_pub, our_cert, master, peer_user_id)?;
        self.add_pending(tag, session, Some(peer_pk));
        assert(opt_arr32(Some(peer_pk)) == Some(peer_pk@));
        Ok(tag)
    }

    /// The first handshake message of the initiator waiting under `tag`, as
    /// packet data (the tag, then the message), and the master key of the
    /// peer it goes to.
    pub fn start_handshake(&mut self, tag: &[u8; 16], our_addr: PeerAddr) -> (r: Result<(Vec<u8>, [u8; 32]), String>)
        requires
            old(self).wf(),
        ensures
            final(self).wf(),
            match assoc_get(old(self)@.pending, tag@) {
                None => r is Err && final(self)@ == old(self)@,
                Some((sv, None)) => r is Err && final(self)@ == old(self)@,
                Some((sv, Some(pk))) => exists|sv2: SessionView| {
                    &&& #[trigger] initiate_outcome(sv, sv2, r is Ok)
                    &&& final(self)@ == (TableView { pending: assoc_insert(old(self)@.pending, tag@, (sv2, Some(pk))), ..old(self)@ })
                    &&& r matches Ok((d, p)) ==> d@.len() >= 16 && d@.subrange(0, 16) == tag@ && p@ == pk
                },
            },
    {
        let ghost t = self@;
        let i = match find_key(&self.pending, tag) {
            None => {
                proof {
                    assert(!(exists|j: int| 0 <= j < t.pending.len() && #[trigger] t.pending[j].0 == tag@));
                }
                return Err("unknown pending tag".to_string());
            },
            Some(i) => i,
        };
        proof {
            lemma_assoc_get(t.pending, i as int);
        }
        let peer_pk = match self.pending[i].1.peer_pk {
            Some(p) => p,
            None => return Err("initiator must have peer_pk".to_string()),
        };
        let (k, mut entry) = self.pending.remove(i);
        let ghost sv = entry.session@;
        let res = entry.session.initiate_handshake(our_addr);
        let ghost e2 = entry@;
        self.pending.insert(i, (k, entry));
        proof {
            assert(keyed_view(self.pending@) =~= t.pending.update(i as int, (tag@, e2)));
            lemma_assoc_insert(t.pending, tag@, e2);
            let p2 = self@.pending;
            assert forall|j: int| 0 <= j < p2.len() implies !(#[trigger] p2[j]).1.0.responding by {
                if j != i {
                    assert(p2[j] == t.pending[j]);
                }
            }
            assert(initiate_outcome(sv, e2.0, res is Ok));
            assert(t.pending[i as int].0 == tag@);
            assert(assoc_get(t.pending, tag@) == Some(t.pending[i as int].1));
            assert(assoc_insert(t.pending, tag@, e2) == t.pending.update(i as int, (tag@, e2)));
            assert(e2.1 == Some(peer_pk@));
            assert(self@ == (TableView { pending: assoc_insert(t.pending, tag@, (e2.0, Some(peer_pk@))), ..t }));
        }
        let ghost ok = res is Ok;
        let r: Result<(Vec<u8>, [u8; 32]), String> = match res {
            Ok(msg) => {
                let mut d: Vec<u8> = Vec::new();
                push_all(&mut d, tag.as_slice());
                push_all(&mut d, msg.as_slice());
                assert(d@.subrange(0, 16) =~= tag@);
                Ok((d, peer_pk))
            },
            Err(e) => Err(e),
        };
        proof {
            assert(ok == r is Ok);
            assert(initiate_outcome(sv, e2.0, r is Ok));
        }
        r
    }

    /// Brings the session `session` with the peer `pk` up on connection `conn`.
    fn establish(&mut self, conn: [u8; 16], session: Session, pk: [u8; 32])
        requires
            old(self).wf(),
        ensures
            final(self).wf(),
            final(self)@ == with_session(old(self)@, conn@, session@, pk@),
    {
        let ghost t = self@;
        let ghost sv = session@;
        put(&mut self.sessions, conn, session);
        put(&mut self.pk_to_conn, pk, conn);
        put(&mut self.conn_to_pk, conn, pk);
        proof {
            let t2 = self@;
            lemma_assoc_insert(t.pk_to_conn, pk@, conn@);
            assert forall|i: int| 0 <= i < t2.pk_to_conn.len() implies assoc_get(t2.sessions, (#[trigger] t2.pk_to_conn[i]).1) is Some by {
                let c = t2.pk_to_conn[i].1;
                lemma_assoc_insert_get(t.sessions, conn@, sv, c);
                if c != conn@ {
                    if exists|j: int| 0 <= j < t.pk_to_conn.len() && #[trigger] t.pk_to_conn[j].0 == pk@ {
                        let j = choose|j: int| 0 <= j < t.pk_to_conn.len() && #[trigger] t.pk_to_conn[j].0 == pk@;
                        assert(t2.pk_to_conn == t.pk_to_conn.update(j, (pk@, conn@)));
                        assert(i != j);
                        assert(t2.pk_to_conn[i] == t.pk_to_conn[i]);
                    } else {
                        assert(t2.pk_to_conn == t.pk_to_conn.push((pk@, conn@)));
                        assert(i < t.pk_to_conn.len());
                        assert(t2.pk_to_conn[i] == t.pk_to_conn[i]);
                    }
                }
            }
        }
    }

    /// Handles handshake packet data from a peer: an initiator waiting under
    /// the tag the data starts with finishes its handshake; otherwise, or if
    /// it fails, the fresh responder session `fresh`, if one is on hand,
    /// answers it.
    pub fn on_handshake(&mut self, data: &[u8], fresh: Option<Session>) -> (r: HandshakeReaction)
        requires
            old(self).wf(),
        ensures
            final(self).wf(),
            handshake_outcome(old(self)@, data@, match fresh {
                Some(s) => Some(s@),
                None => None,
            }, final(self)@, r@),
    {
        let ghost t = self@;
        if data.len() < 16 {
            return HandshakeReaction { reply: None, peer_device_key: None, established: None };
        }
        let tag: [u8; 16] = copy_array::<16>(data, 0);
        let msg = copy_tail(data, 16);
        let ghost mut failed: Option<(Option<(Seq<u8>, Seq<u8>, Seq<u8>)>, SessionView)> = None;
        match find_key(&self.pending, &tag) {
            None => {
                proof {
                    assert(!(exists|j: int| 0 <= j < t.pending.len() && #[trigger] t.pending[j].0 == tag@));
                }
            },
            Some(i) => {
                proof {
                    lemma_assoc_get(t.pending, i as int);
                }
                let (k, mut entry) = self.pending.remove(i);
                let ghost e0 = entry@;
                if entry.session.is_initiator() {
                    let res = entry.session.complete_handshake(msg.as_slice());
                    let ghost sv2 = entry.session@;
                    let ghost n = choose|n: Option<(Seq<u8>, Seq<u8>, Seq<u8>)>| #[trigger] finish_step(e0.0, msg@, n, sv2, res is Ok);
                    assert(finish_step(e0.0, msg@, n, sv2, res is Ok));
                    if res.is_ok() {
                        let conn = match entry.session.connection_id() {
                            Some(c) => c,
                            None => [0u8; 16],
                        };
                        let pk = match entry.peer_pk {
                            Some(p) => p,
                            None => [0u8; 32],
                        };
                        let key = match entry.session.peer_certificate() {
                            Some(c) => c.device_ed25519_pubkey,
                            None => [0u8; 32],
                        };
                        let PendingSession { session, peer_pk: _ } = entry;
                        proof {
                            let p1 = keyed_view(self.pending@);
                            assert(p1 =~= t.pending.remove(i as int));
                            assert forall|j: int| 0 <= j < t.pending.len() && j != i implies
                                (#[trigger] pending_other_than(tag@)(t.pending[j])) by {
                                if j < i {
                                    assert(t.pending[j].0 != t.pending[i as int].0);
                                } else {
                                    assert(t.pending[i as int].0 != t.pending[j].0);
                                }
                            }
                            lemma_filter_remove_one(t.pending, i as int, pending_other_than(tag@));
                            let p2 = self@.pending;
                            assert forall|a: int, b: int| 0 <= a < b < p2.len() implies #[trigger] p2[a].0 != #[trigger] p2[b].0 by {
                                let x = if a < i { a } else { a + 1 };
                                let y = if b < i { b } else { b + 1 };
                                assert(p2[a] == t.pending[x] && p2[b] == t.pending[y]);
                            }
                            assert forall|a: int| 0 <= a < p2.len() implies !(#[trigger] p2[a]).1.0.responding by {
                                let x = if a < i { a } else { a + 1 };
                                assert(p2[a] == t.pending[x]);
                            }
                            assert(conn@ == sv2.connection_id->0);
                            assert(pk@ == or_zeros(e0.1, 32)) by {
                                if e0.1 is None {
                                    assert(pk@ =~= zeros(32));
                                }
                            }
                        }
                        self.establish(conn, session, pk);
                        let r = HandshakeReaction { reply: None, peer_device_key: Some(key), established: Some(conn) };
                        proof {
                            assert(assoc_get(t.pending, tag@) == Some(e0));
                            assert(key@ == sv2.peer_certificate->0.device_ed25519_pubkey);
                            assert(initiator_came_up(t, tag@, sv2, self@, r@));
                            assert(data@.subrange(0, 16) == tag@);
                            assert(data@.subrange(16, data@.len() as int) == msg@);
                        }
                        return r;
                    }
                    proof {
                        failed = Some((n, sv2));
                    }
                }
                let ghost e1 = entry@;
                self.pending.insert(i, (k, entry));
                proof {
                    assert(keyed_view(self.pending@) =~= t.pending.update(i as int, (tag@, e1)));
                    lemma_assoc_insert(t.pending, tag@, e1);
                    let p2 = self@.pending;
                    assert forall|j: int| 0 <= j < p2.len() implies !(#[trigger] p2[j]).1.0.responding by {
                        if j != i {
                            assert(p2[j] == t.pending[j]);
                        }
                    }
                    if !e0.0.initiating {
                        assert(e1 == e0);
                        assert(t.pending.update(i as int, (tag@, e1)) =~= t.pending);
                    }
                }
            },
        }
        let ghost tr = self@;
        proof {
            assert(data@.subrange(0, 16) == tag@);
            assert(data@.subrange(16, data@.len() as int) == msg@);
        }
        let mut s = match fresh {
            None => {
                let r = HandshakeReaction { reply: None, peer_device_key: None, established: None };
                proof {
                    if let Some(w) = failed {
                        let e = assoc_get(t.pending, tag@)->0;
                        assert(finish_step(e.0, msg@, w.0, w.1, false));
                    }
                }
                return r;
            },
            Some(s) => s,
        };
        let ghost s0 = s@;
        let accepted_ok = s.accept_handshake(msg.as_slice()).is_ok();
        let ghost s1 = s@;
        let ghost na = choose|na: Option<Seq<u8>>| #[trigger] accept_step(s0, msg@, na, s1, accepted_ok);
        proof {
            if s0.responding {
                assert(accept_step(s0, msg@, na, s1, accepted_ok));
            }
        }
        if !accepted_ok {
            let r = HandshakeReaction { reply: None, peer_device_key: None, established: None };
            proof {
                assert(responder_came_up(tr, tag@, msg@, Some(s0), self@, r@));
                if let Some(w) = failed {
                    let e = assoc_get(t.pending, tag@)->0;
                        assert(finish_step(e.0, msg@, w.0, w.1, false));
                }
            }
            return r;
        }
        let ppk = match s.peer_master_pubkey() {
            Some(p) => p,
            None => [0u8; 32],
        };
        let dkey = match s.peer_certificate() {
            Some(c) => c.device_ed25519_pubkey,
            None => [0u8; 32],
        };
        let answered = s.reply_handshake();
        let ghost s2 = s@;
        let ghost kk = s2.our_ratchet_dh_priv->0;
        let ghost nr = choose|nr: Option<(Seq<u8>, Seq<u8>, Seq<u8>)>| #[trigger] reply_outcome(s1, kk, nr, s2, sent_bytes(answered));
        assert(reply_outcome(s1, kk, nr, s2, sent_bytes(answered)));
        let conn = match s.connection_id() {
            Some(c) => c,
            None => [0u8; 16],
        };
        let reply = match answered {
            Ok(b) => {
                let mut d: Vec<u8> = Vec::new();
                push_all(&mut d, tag.as_slice());
                push_all(&mut d, b.as_slice());
                Some((d, ppk))
            },
            Err(_) => None,
        };
        proof {
            assert(conn@ == or_zeros(s2.connection_id, 16)) by {
                if s2.connection_id is None {
                    assert(conn@ =~= zeros(16));
                }
            }
        }
        self.establish(conn, s, ppk);
        let r = HandshakeReaction { reply, peer_device_key: Some(dkey), established: Some(conn) };
        proof {
            assert(r@.reply == reply_data(tag@, sent_bytes(answered), s1.peer_master_pubkey->0));
            assert(responder_came_up(tr, tag@, msg@, Some(s0), self@, r@));
            if let Some(w) = failed {
                let e = assoc_get(t.pending, tag@)->0;
                        assert(finish_step(e.0, msg@, w.0, w.1, false));
            }
        }
        r
    }

    /// Hands a message packet to the session of the connection its data
    /// starts with; returns the message and the sender's master key.
    pub fn on_message(&mut self, packet: &Packet) -> (r: Option<(Message, [u8; 32])>)
        requires
            old(self).wf(),
        ensures
            final(self).wf(),
            ({
                let d = packet@.payload.data;
                let t = old(self)@;
                if d.len() < 16 || assoc_get(t.sessions, d.subrange(0, 16)) is None {
                    r is None && final(self)@ == t
                } else {
                    exists|sv2: SessionView| {
                        &&& #[trigger] receive_outcome(assoc_get(t.sessions, d.subrange(0, 16))->0, packet@, sv2, opt_received(r))
                        &&& final(self)@ == (TableView { sessions: assoc_insert(t.sessions, d.subrange(0, 16), sv2), ..t })
                    }
                }
            }),
    {
        let ghost t = self@;
        let data = packet.payload.data.as_slice();
        if data.len() < 16 {
            return None;
        }
        let conn: [u8; 16] = copy_array::<16>(data, 0);
        assert(conn@ == packet@.payload.data.subrange(0, 16));
        let i = match find_key(&self.sessions, &conn) {
            None => {
                proof {
                    assert(!(exists|j: int| 0 <= j < t.sessions.len() && #[trigger] t.sessions[j].0 == conn@));
                }
                return None;
            },
            Some(i) => i,
        };
        proof {
            lemma_assoc_get(t.sessions, i as int);
        }
        let (k, mut session) = self.sessions.remove(i);
        let ghost sv = session@;
        let got = session.receive(packet);
        let ghost sv2 = session@;
        self.sessions.insert(i, (k, session));
        let r = match got {
            Ok(v) => Some(v),
            Err(_) => None,
        };
        proof {
            assert(keyed_view(self.sessions@) =~= t.sessions.update(i as int, (conn@, sv2)));
            lemma_assoc_insert(t.sessions, conn@, sv2);
            assert(assoc_insert(t.sessions, conn@, sv2) == t.sessions.update(i as int, (conn@, sv2)));
            assert(receive_outcome(sv, packet@, sv2, opt_received(r)));
            assert(t.sessions[i as int] == (conn@, sv));
            assert(assoc_get(t.sessions, conn@) == Some(sv));
            assert(self@ == (TableView { sessions: assoc_insert(t.sessions, conn@, sv2), ..t }));
            assert(receive_outcome(assoc_get(t.sessions, packet@.payload.data.subrange(0, 16))->0, packet@, sv2, opt_received(r)));
            let t2 = self@;
            assert forall|j: int| 0 <= j < t2.pk_to_conn.len() implies assoc_get(t2.sessions, (#[trigger] t2.pk_to_conn[j]).1) is Some by {
                lemma_assoc_insert_get(t.sessions, conn@, sv2, t2.pk_to_conn[j].1);
            }
        }
        r
    }

    /// Encrypts `message` for the peer with master key `peer_pk`, in the
    /// session of its connection.
    pub fn send_message(&mut self, message: &Message, peer_pk: &[u8; 32]) -> (r: Result<Packet, String>)
        requires
            old(self).wf(),
        ensures
            final(self).wf(),
            ({
                let t = old(self)@;
                match assoc_get(t.pk_to_conn, peer_pk@) {
                    None => r is Err && final(self)@ == t,
                    Some(conn) => exists|sv2: SessionView| {
                        &&& #[trigger] send_outcome(assoc_get(t.sessions, conn)->0, message@, sv2, opt_packet(r))
                        &&& final(self)@ == (TableView { sessions: assoc_insert(t.sessions, conn, sv2), ..t })
                    },
                }
            }),
    {
        let ghost t = self@;
        let j = match find_key(&self.pk_to_conn, peer_pk) {
            None => {
                proof {
                    assert(!(exists|j: int| 0 <= j < t.pk_to_conn.len() && #[trigger] t.pk_to_conn[j].0 == peer_pk@));
                }
                return Err("no session for peer".to_string());
            },
            Some(j) => j,
        };
        proof {
            lemma_assoc_get(t.pk_to_conn, j as int);
        }
        let conn: [u8; 16] = self.pk_to_conn[j].1;
        assert(conn@ == t.pk_to_conn[j as int].1);
        let i = match find_key(&self.sessions, &conn) {
            None => {
                proof {
                    assert(assoc_get(t.sessions, conn@) is Some);
                    let c = choose|c: int| 0 <= c < t.sessions.len() && #[trigger] t.sessions[c].0 == conn@;
                    assert(t.sessions[c].0 != conn@);
                }
                return Err("no session for peer".to_string());
            },
            Some(i) => i,
        };
        proof {
            lemma_assoc_get(t.sessions, i as int);
        }
        let (k, mut session) = self.sessions.remove(i);
        let ghost sv = session@;
        let r = session.send(message);
        let ghost sv2 = session@;
        self.sessions.insert(i, (k, session));
        proof {
            assert(keyed_view(self.sessions@) =~= t.sessions.update(i as int, (conn@, sv2)));
            lemma_assoc_insert(t.sessions, conn@, sv2);
            assert(assoc_insert(t.sessions, conn@, sv2) == t.sessions.update(i as int, (conn@, sv2)));
            assert(send_outcome(sv, message@, sv2, opt_packet(r)));
            assert(t.sessions[i as int] == (conn@, sv));
            assert(assoc_get(t.sessions, conn@) == Some(sv));
            assert(assoc_get(t.pk_to_conn, peer_pk@) == Some(conn@));
            assert(self@ == (TableView { sessions: assoc_insert(t.sessions, conn@, sv2), ..t }));
            assert(send_outcome(assoc_get(t.sessions, conn@)->0, message@, sv2, opt_packet(r)));
            let t2 = self@;
            assert forall|a: int| 0 <= a < t2.pk_to_conn.len() implies assoc_get(t2.sessions, (#[trigger] t2.pk_to_conn[a]).1) is Some by {
                lemma_assoc_insert_get(t.sessions, conn@, sv2, t2.pk_to_conn[a].1);
            }
        }
        r
    }

    /// The first connection, in table order, whose session is established.
    pub fn first_active_conn_id(&self) -> (r: Option<[u8; 16]>)
        ensures
            match r {
                None => forall|j: int| 0 <= j < self@.sessions.len() ==> (#[trigger] self@.sessions[j]).1.ratchet is None,
                Some(c) => exists|i: int| {
                    &&& 0 <= i < self@.sessions.len()
                    &&& #[trigger] self@.sessions[i].0 == c@
                    &&& self@.sessions[i].1.ratchet is Some
                    &&& forall|j: int| 0 <= j < i ==> (#[trigger] self@.sessions[j]).1.ratchet is None
                },
            },
    {
        let mut i: usize = 0;
        while i < self.sessions.len()
            invariant
                i <= self@.sessions.len(),
                self@.sessions.len() == self.sessions@.len(),
                forall|j: int| 0 <= j < i ==> (#[trigger] self@.sessions[j]).1.ratchet is None,
            decreases self.sessions@.len() - i,
        {
            if self.sessions[i].1.is_established() {
                let c = self.sessions[i].0;
                assert(self@.sessions[i as int].0 == c@);
                return Some(c);
            }
            i = i + 1;
        }
        None
    }

    /// Whether the session of connection `conn` is established.
    pub fn session_established(&self, conn: &[u8; 16]) -> (r: bool)
        requires
            self.wf(),
        ensures
            r == (assoc_get(self@.sessions, conn@) matches Some(sv) && sv.ratchet is Some),
    {
        let ghost t = self@;
        match find_key(&self.sessions, conn) {
            None => {
                proof {
                    assert(!(exists|j: int| 0 <= j < t.sessions.len() && #[trigger] t.sessions[j].0 == conn@));
                }
                false
            },
            Some(i) => {
                proof {
                    lemma_assoc_get(t.sessions, i as int);
                }
                self.sessions[i].1.is_established()
            },
        }
    }

    /// The master key of the peer on connection `conn`, if known.
    pub fn peer_of(&self, conn: &[u8; 16]) -> (r: Option<[u8; 32]>)
        requires
            self.wf(),
        ensures
            opt_arr32(r) == assoc_get(self@.conn_to_pk, conn@),
    {
        let ghost t = self@;
        match find_key(&self.conn_to_pk, conn) {
            None => {
                proof {
                    assert(!(exists|j: int| 0 <= j < t.conn_to_pk.len() && #[trigger] t.conn_to_pk[j].0 == conn@));
                }
                None
            },
            Some(i) => {
                proof {
                    lemma_assoc_get(t.conn_to_pk, i as int);
                }
                Some(self.conn_to_pk[i].1)
            },
        }
    }

    /// The safety number of our session with the peer whose master key is
    /// `peer_pk`, as both devices compute it.
    pub fn peer_safety_number(&self, our_pk: &[u8; 32], peer_pk: &[u8; 32]) -> (r: Option<[u8; 32]>)
        requires
            self.wf(),
        ensures
            match assoc_get(self@.pk_to_conn, peer_pk@) {
                None => r is None,
                Some(conn) => match assoc_get(self@.sessions, conn)->0.handshake_hash {
                    None => r is None,
                    Some(h) => r matches Some(s) && s@ == safety_number_of(h, our_pk@, peer_pk@),
                },
            },
    {
        let ghost t = self@;
        let j = match find_key(&self.pk_to_conn, peer_pk) {
            None => {
                proof {
                    assert(!(exists|j: int| 0 <= j < t.pk_to_conn.len() && #[trigger] t.pk_to_conn[j].0 == peer_pk@));
                }
                return None;
            },
            Some(j) => j,
        };
        proof {
            lemma_assoc_get(t.pk_to_conn, j as int);
        }
        let conn: [u8; 16] = self.pk_to_conn[j].1;
        assert(conn@ == t.pk_to_conn[j as int].1);
        match find_key(&self.sessions, &conn) {
            None => {
                proof {
                    assert(assoc_get(t.sessions, conn@) is Some);
                    let c = choose|c: int| 0 <= c < t.sessions.len() && #[trigger] t.sessions[c].0 == conn@;
                    assert(t.sessions[c].0 != conn@);
                }
                None
            },
            Some(i) => {
                proof {
                    lemma_assoc_get(t.sessions, i as int);
                }
                self.sessions[i].1.safety_number(our_pk, peer_pk)
            },
        }
    }
}

} // verus!
