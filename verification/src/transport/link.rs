//! The state of one reliable endpoint and what it does with each event: a
//! packet handed to it for sending, a datagram received, and a quiet spell
//! in which resends and old reassemblies are dealt with. The socket and the
//! threads that feed these events in live outside the library.

use vstd::prelude::*;
use crate::assoc::{assoc_insert, assoc_get, keys_distinct, lemma_assoc_insert_get, lemma_filter_keys_distinct};
use crate::network::addr::PeerAddr;
use crate::protocol::packet::{Packet, PacketView, PacketFlag, flag_bit, has_flag, packet_wire};
use crate::storage::{PeerKeyMap, PeerKeyEntry};
use crate::transport::fragment::{Reassembler, ReassemblyKey, PendingView, splittable, chunk_count,
    feed_result, packet_opt_view, young_at};
use crate::transport::reliable::{PendingSends, SendView, SeenCache, send_other_than, ack_outcome, dedup_step,
    acked_fragment_of, pass_table, pass_resends, verify_ack, reliable_fragments, seen_recently, oldest_index,
    elapsed, lemma_oldest_range, DEDUP_TTL_MS, MAX_SEEN};

verus! {

pub struct LinkState {
    pub pending: PendingSends,
    pub seen: SeenCache,
    pub reassembler: Reassembler,
    pub peer_keys: PeerKeyMap,
}

/// Mathematical value of an endpoint's state.
pub struct LinkView {
    pub pending: Seq<(u128, SendView)>,
    pub seen: Seq<(u128, u64)>,
    pub reassembly: Seq<(ReassemblyKey, PendingView)>,
    pub keys: Seq<PeerKeyEntry>,
}

impl View for LinkState {
    type V = LinkView;

    open spec fn view(&self) -> LinkView {
        LinkView { pending: self.pending@, seen: self.seen@, reassembly: self.reassembler@, keys: self.peer_keys@ }
    }
}

/// What a received packet `p` from `sender` at `now` does, and the packet
/// handed up, if any: fragments are reassembled first; an acknowledgement
/// settles its send when it is genuine and is never handed up; any other
/// packet is handed up unless its ID was seen recently.
pub open spec fn receive_step(v: LinkView, p: PacketView, sender: PeerAddr, now: u64) -> (LinkView, Option<PacketView>) {
    let (re, fed) = feed_result(v.reassembly, p, sender, now);
    match fed {
        None => (LinkView { reassembly: re, ..v }, None),
        Some(q) => if has_flag(q.flags, PacketFlag::Ack) {
            let (ok, keys) = ack_outcome(q, v.pending, v.keys, sender);
            (LinkView {
                pending: if ok { v.pending.filter(send_other_than(q.id)) } else { v.pending },
                seen: v.seen,
                reassembly: re,
                keys,
            }, None)
        } else {
            let (fresh, seen) = dedup_step(v.seen, q.id, now);
            (LinkView { seen, reassembly: re, ..v }, if fresh { Some(q) } else { None })
        },
    }
}

/// `fs` are the datagrams sent for `p`: `p` itself when it fits one chunk,
/// else its fragments, each asking for an acknowledgement.
pub open spec fn sends_for(p: PacketView, fs: Seq<PacketView>) -> bool {
    let n = chunk_count(packet_wire(p).len());
    if n % 256 <= 1 {
        fs.len() == 1 && fs[0] == (PacketView { flags: p.flags | flag_bit(PacketFlag::AckRequired), ..p })
    } else {
        fs.len() == n && forall|i: int| 0 <= i < n ==> acked_fragment_of(#[trigger] fs[i], p, i, n as int)
    }
}

/// A packet that the duplicate filter lets through is remembered as seen at
/// that time.
proof fn lemma_dedup_remembers(s: Seq<(u128, u64)>, id: u128, now: u64)
    requires
        keys_distinct(s),
    ensures
        dedup_step(s, id, now).0 ==> assoc_get(dedup_step(s, id, now).1, id) == Some(now),
{
    let s1 = if s.len() >= MAX_SEEN { s.filter(seen_recently(now)) } else { s };
    lemma_filter_keys_distinct(s, seen_recently(now));
    assert(keys_distinct(s1));
    if s1.len() >= MAX_SEEN {
        lemma_oldest_range(s1);
        let m = oldest_index(s1);
        let s2 = s1.remove(m);
        assert forall|a: int, b: int| 0 <= a < b < s2.len() implies #[trigger] s2[a].0 != #[trigger] s2[b].0 by {
            let x = if a < m { a } else { a + 1 };
            let y = if b < m { b } else { b + 1 };
            assert(s2[a] == s1[x] && s2[b] == s1[y]);
        }
        lemma_assoc_insert_get(s2, id, now, id);
    } else {
        lemma_assoc_insert_get(s1, id, now, id);
    }
}

/// A packet handed up once is not handed up again when it arrives a second
/// time, from any sender, within the duplicate window.
pub proof fn lemma_duplicate_not_handed_up(v: LinkView, p: PacketView, from1: PeerAddr, t1: u64, from2: PeerAddr, t2: u64)
    requires
        keys_distinct(v.seen),
        p.payload.fragment_id == 0,
        t1 <= t2,
        t2 - t1 < DEDUP_TTL_MS,
        receive_step(v, p, from1, t1).1 is Some,
    ensures
        receive_step(receive_step(v, p, from1, t1).0, p, from2, t2).1 is None,
{
    lemma_dedup_remembers(v.seen, p.id, t1);
    assert(elapsed(t2, t1) == t2 - t1);
}

/// An unsigned acknowledgement from the address a pending packet was sent
/// to settles that packet: no send of its ID is left.
pub proof fn lemma_ack_settles(v: LinkView, p: PacketView, sender: PeerAddr, now: u64)
    requires
        p.payload.fragment_id == 0,
        has_flag(p.flags, PacketFlag::Ack),
        p.payload.data.len() < 96,
        assoc_get(v.pending, p.id) matches Some(e) && e.dest == sender,
    ensures
        assoc_get(receive_step(v, p, sender, now).0.pending, p.id) is None,
        receive_step(v, p, sender, now).1 is None,
{
    broadcast use vstd::seq_lib::group_filter_ensures;
    let f = v.pending.filter(send_other_than(p.id));
    assert forall|i: int| 0 <= i < f.len() implies #[trigger] f[i].0 != p.id by {
        v.pending.lemma_filter_pred(send_other_than(p.id), i);
    }
}

impl LinkState {
    pub open spec fn wf(&self) -> bool {
        &&& self.pending.wf()
        &&& self.seen.wf()
        &&& self.reassembler.wf()
        &&& self.peer_keys.wf()
    }

    pub fn new() -> (r: Self)
        ensures
            r.wf(),
            r@.pending.len() == 0,
            r@.seen.len() == 0,
            r@.reassembly.len() == 0,
            r@.keys.len() == 0,
    {
        LinkState {
            pending: PendingSends::new(),
            seen: SeenCache::new(),
            reassembler: Reassembler::new(),
            peer_keys: PeerKeyMap::new(),
        }
    }

    /// Takes in a packet received from `sender` at `now`; returns the packet
    /// to hand up, if any.
    pub fn on_packet_at(&mut self, packet: &Packet, sender: PeerAddr, now: u64) -> (r: Option<Packet>)
        requires
            old(self).wf(),
            packet@.payload.fragment_id != 0 ==> packet@.payload.fragment_index < packet@.payload.fragment_total,
        ensures
            final(self).wf(),
            (final(self)@, packet_opt_view(r)) == receive_step(old(self)@, packet@, sender, now),
    {
        let fed = self.reassembler.feed_at(packet, sender, now);
        let q = match fed {
            None => return None,
            Some(q) => q,
        };
        if q.header.flags.contains(PacketFlag::Ack) {
            let ok = verify_ack(&q, &self.pending, &mut self.peer_keys, sender);
            if ok {
                self.pending.remove(q.header.id);
            }
            return None;
        }
        if self.seen.check_new_at(q.header.id, now) {
            Some(q)
        } else {
            None
        }
    }

    /// The datagrams that send `packet`, each with the ID under which its
    /// acknowledgement is awaited. Nothing is recorded here: a datagram
    /// awaits its acknowledgement only once it has gone out (`record_sent_at`).
    pub fn prepare_send(&self, packet: &Packet) -> (r: Vec<(u128, Vec<u8>)>)
        requires
            splittable(packet@),
        ensures
            exists|fs: Seq<PacketView>| {
                &&& #[trigger] sends_for(packet@, fs)
                &&& r@.len() == fs.len()
                &&& forall|i: int| 0 <= i < fs.len() ==> (#[trigger] r@[i]).0 == fs[i].id && r@[i].1@ == packet_wire(fs[i])
            },
    {
        let frags = reliable_fragments(packet);
        let ghost fs = frags@.map_values(|f: Packet| f@);
        proof {
            assert(sends_for(packet@, fs));
        }
        let mut out: Vec<(u128, Vec<u8>)> = Vec::new();
        let mut i: usize = 0;
        while i < frags.len()
            invariant
                fs == frags@.map_values(|f: Packet| f@),
                i <= frags@.len(),
                out@.len() == i,
                forall|k: int| 0 <= k < i ==> (#[trigger] out@[k]).0 == fs[k].id && out@[k].1@ == packet_wire(fs[k]),
            decreases frags@.len() - i,
        {
            let bytes = frags[i].serialize();
            out.push((frags[i].header.id, bytes));
            i = i + 1;
        }
        out
    }

    /// Records that `datagram`, sent to `dest` at `now`, awaits the
    /// acknowledgement of `id`; the rest of the state is unchanged.
    pub fn record_sent_at(&mut self, id: u128, datagram: Vec<u8>, dest: PeerAddr, now: u64)
        requires
            old(self).wf(),
        ensures
            final(self).wf(),
            final(self)@ == (LinkView {
                pending: assoc_insert(old(self)@.pending, id, SendView { serialized: datagram@, dest, retries: 0, last_sent: now }),
                ..old(self)@
            }),
    {
        self.pending.record_at(id, datagram, dest, now);
    }

    /// A quiet spell at `now`: the sends that are due go out again (those
    /// resent too often are given up), and reassemblies that took too long
    /// are dropped.
    pub fn on_idle_at(&mut self, now: u64) -> (r: Vec<(Vec<u8>, PeerAddr)>)
        requires
            old(self).wf(),
        ensures
            final(self).wf(),
            final(self)@ == (LinkView {
                pending: pass_table(old(self)@.pending, now),
                reassembly: old(self)@.reassembly.filter(young_at(now)),
                ..old(self)@
            }),
            r@.map_values(|x: (Vec<u8>, PeerAddr)| (x.0@, x.1)) == pass_resends(old(self)@.pending, now),
    {
        let r = self.pending.retransmit_at(now);
        self.reassembler.evict_stale_at(now);
        r
    }
}

} // verus!
