//! The decisions of the reliable transport: which sends still await an
//! acknowledgement and when to resend them, which received packets are
//! duplicates, whether an acknowledgement is genuine, and what an
//! acknowledgement carries. Sockets and threads live outside the library.

use vstd::prelude::*;
use crate::assoc::{assoc_get, assoc_insert, keys_distinct, lemma_assoc_insert, lemma_assoc_get, lemma_filter_keys_distinct,
    lemma_filter_all, lemma_filter_remove_one};
use crate::crypto::sign::{ed25519_public, ed25519_signature, ed25519_point_valid, ed25519_verifies,
    ed25519_public_key, ed25519_sign, ed25519_valid_point, ed25519_check};
use crate::network::addr::PeerAddr;
use crate::protocol::packet::{Packet, PacketView, PacketFlag, CURRENT_VERSION, flag_bit, flag_to_int};
use crate::protocol::payload::{Payload, PayloadTag, PayloadView};
use crate::protocol::wire::{be_u128, push_u128, push_all, copy_array};
use crate::storage::{PeerKeyMap, PeerKeyEntry};
use crate::transport::fragment::{split_packet, splittable, chunk_count, fragment_of};
use crate::protocol::packet::packet_wire;

verus! {

/// A send is given up after this many resends.
pub const MAX_RETRIES: u8 = 5;
/// A send is resent when unacknowledged for longer than this (milliseconds).
pub const RETRY_DELAY_MS: u64 = 2_000;
/// A packet ID seen within this long (milliseconds) marks a duplicate.
pub const DEDUP_TTL_MS: u64 = 300_000;
/// The most packet IDs remembered.
pub const MAX_SEEN: usize = 1024;

pub open spec fn elapsed(now: u64, then: u64) -> int {
    if now > then { now - then } else { 0 }
}

fn age(now: u64, then: u64) -> (r: u64)
    ensures
        r == elapsed(now, then),
{
    if now > then { now - then } else { 0 }
}

/// A sent packet awaiting its acknowledgement.
pub struct PendingSend {
    pub serialized: Vec<u8>,
    pub dest: PeerAddr,
    pub retries: u8,
    pub last_sent: u64,
}

pub struct SendView {
    pub serialized: Seq<u8>,
    pub dest: PeerAddr,
    pub retries: u8,
    pub last_sent: u64,
}

impl View for PendingSend {
    type V = SendView;

    open spec fn view(&self) -> SendView {
        SendView { serialized: self.serialized@, dest: self.dest, retries: self.retries, last_sent: self.last_sent }
    }
}

/// Entries for any packet but `id`.
pub open spec fn send_other_than(id: u128) -> spec_fn((u128, SendView)) -> bool {
    |e: (u128, SendView)| e.0 != id
}

pub open spec fn still_tried(e: (u128, SendView)) -> bool {
    e.1.retries < MAX_RETRIES
}

pub open spec fn resend_due(e: (u128, SendView), now: u64) -> bool {
    elapsed(now, e.1.last_sent) > RETRY_DELAY_MS
}

/// One entry after a retransmission pass at `now`.
pub open spec fn after_pass(e: (u128, SendView), now: u64) -> (u128, SendView) {
    if resend_due(e, now) {
        (e.0, SendView { last_sent: now, retries: (e.1.retries + 1) as u8, ..e.1 })
    } else {
        e
    }
}

/// The table after a retransmission pass: sends resent `MAX_RETRIES` times
/// are given up, the others that are due are resent.
pub open spec fn pass_table(s: Seq<(u128, SendView)>, now: u64) -> Seq<(u128, SendView)>
    decreases s.len(),
{
    if s.len() == 0 {
        s
    } else {
        let rest = pass_table(s.drop_last(), now);
        if still_tried(s.last()) { rest.push(after_pass(s.last(), now)) } else { rest }
    }
}

/// What a retransmission pass sends, in table order.
pub open spec fn pass_resends(s: Seq<(u128, SendView)>, now: u64) -> Seq<(Seq<u8>, PeerAddr)>
    decreases s.len(),
{
    if s.len() == 0 {
        Seq::empty()
    } else {
        let rest = pass_resends(s.drop_last(), now);
        let e = s.last();
        if still_tried(e) && resend_due(e, now) { rest.push((e.1.serialized, e.1.dest)) } else { rest }
    }
}

proof fn lemma_pass_table_keys(s: Seq<(u128, SendView)>, now: u64)
    requires
        keys_distinct(s),
    ensures
        keys_distinct(pass_table(s, now)),
        forall|i: int| 0 <= i < pass_table(s, now).len() ==> exists|j: int| 0 <= j < s.len() && #[trigger] pass_table(s, now)[i].0 == s[j].0,
    decreases s.len(),
{
    if s.len() > 0 {
        let p = s.drop_last();
        assert(keys_distinct(p)) by {
            assert forall|a: int, b: int| 0 <= a < b < p.len() implies #[trigger] p[a].0 != #[trigger] p[b].0 by {
                assert(p[a] == s[a] && p[b] == s[b]);
            }
        }
        lemma_pass_table_keys(p, now);
        let t = pass_table(s, now);
        let tp = pass_table(p, now);
        assert forall|i: int| 0 <= i < t.len() implies exists|j: int| 0 <= j < s.len() && #[trigger] t[i].0 == s[j].0 by {
            if i < tp.len() {
                assert(t[i] == tp[i]);
                let j = choose|j: int| 0 <= j < p.len() && #[trigger] tp[i].0 == p[j].0;
                assert(s[j] == p[j]);
            } else {
                assert(t[i].0 == s[s.len() - 1].0);
            }
        }
        assert forall|a: int, b: int| 0 <= a < b < t.len() implies #[trigger] t[a].0 != #[trigger] t[b].0 by {
            if b < tp.len() {
                assert(t[a] == tp[a] && t[b] == tp[b]);
            } else {
                assert(t[a] == tp[a]);
                let j = choose|j: int| 0 <= j < p.len() && #[trigger] tp[a].0 == p[j].0;
                assert(s[j] == p[j]);
                assert(s[j].0 != s[s.len() - 1].0);
            }
        }
    }
}

/// Sends awaiting acknowledgement, by packet ID.
pub struct PendingSends {
    entries: Vec<(u128, PendingSend)>,
}

impl View for PendingSends {
    type V = Seq<(u128, SendView)>;

    closed spec fn view(&self) -> Seq<(u128, SendView)> {
        self.entries@.map_values(|e: (u128, PendingSend)| (e.0, e.1@))
    }
}

impl PendingSends {
    pub closed spec fn wf(&self) -> bool {
        keys_distinct(self@)
    }

    pub fn new() -> (r: Self)
        ensures
            r.wf(),
            r@.len() == 0,
    {
        PendingSends { entries: Vec::new() }
    }

    fn find(&self, id: u128) -> (r: Option<usize>)
        ensures
            match r {
                None => forall|j: int| 0 <= j < self@.len() ==> (#[trigger] self@[j]).0 != id,
                Some(i) => i < self@.len() && self@[i as int].0 == id,
            },
    {
        let mut i: usize = 0;
        while i < self.entries.len()
            invariant
                i <= self@.len(),
                forall|j: int| 0 <= j < i ==> (#[trigger] self@[j]).0 != id,
            decreases self@.len() - i,
        {
            if self.entries[i].0 == id {
                return Some(i);
            }
            i = i + 1;
        }
        None
    }

    /// Records a send of packet `id`, made at `now`, replacing an earlier one.
    pub fn record_at(&mut self, id: u128, serialized: Vec<u8>, dest: PeerAddr, now: u64)
        requires
            old(self).wf(),
        ensures
            final(self).wf(),
            final(self)@ == assoc_insert(old(self)@, id, SendView { serialized: serialized@, dest, retries: 0, last_sent: now }),
    {
        let ghost s = self@;
        let ghost v = SendView { serialized: serialized@, dest, retries: 0, last_sent: now };
        proof {
            lemma_assoc_insert(s, id, v);
        }
        let e = PendingSend { serialized, dest, retries: 0, last_sent: now };
        match self.find(id) {
            Some(i) => {
                self.entries.set(i, (id, e));
                assert(self@ =~= s.update(i as int, (id, v)));
            },
            None => {
                self.entries.push((id, e));
                assert(self@ =~= s.push((id, v)));
            },
        }
    }

    /// Where the send of packet `id` went, if it awaits acknowledgement.
    pub fn dest_of(&self, id: u128) -> (r: Option<PeerAddr>)
        requires
            self.wf(),
        ensures
            r == (match assoc_get(self@, id) {
                Some(v) => Some(v.dest),
                None => None::<PeerAddr>,
            }),
    {
        match self.find(id) {
            Some(i) => {
                proof {
                    lemma_assoc_get(self@, i as int);
                }
                Some(self.entries[i].1.dest)
            },
            None => None,
        }
    }

    /// Forgets the send of packet `id`.
    pub fn remove(&mut self, id: u128)
        requires
            old(self).wf(),
        ensures
            final(self).wf(),
            final(self)@ == old(self)@.filter(send_other_than(id)),
    {
        let ghost s = self@;
        proof {
            lemma_filter_keys_distinct(s, send_other_than(id));
        }
        match self.find(id) {
            None => {
                proof {
                    lemma_filter_all(s, send_other_than(id));
                }
            },
            Some(i) => {
                self.entries.remove(i);
                proof {
                    lemma_filter_remove_one(s, i as int, send_other_than(id));
                    assert(self@ =~= s.remove(i as int));
                }
            },
        }
    }

    /// A retransmission pass at `now`: returns the packets to send again and
    /// where to, and updates the table as `pass_table` says.
    pub fn retransmit_at(&mut self, now: u64) -> (r: Vec<(Vec<u8>, PeerAddr)>)
        requires
            old(self).wf(),
        ensures
            final(self).wf(),
            final(self)@ == pass_table(old(self)@, now),
            r@.map_values(|x: (Vec<u8>, PeerAddr)| (x.0@, x.1)) == pass_resends(old(self)@, now),
    {
        let ghost s = self@;
        let mut old_entries: Vec<(u128, PendingSend)> = Vec::new();
        std::mem::swap(&mut old_entries, &mut self.entries);
        let ghost orig = old_entries@;
        assert(orig.map_values(|e: (u128, PendingSend)| (e.0, e.1@)) == s);
        assert(orig.len() == old_entries.len());
        assert(old_entries@ =~= orig.subrange(0, orig.len() as int));
        let mut kept: Vec<(u128, PendingSend)> = Vec::new();
        let mut out: Vec<(Vec<u8>, PeerAddr)> = Vec::new();
        let mut i: usize = 0;
        while old_entries.len() > 0
            invariant
                orig.map_values(|e: (u128, PendingSend)| (e.0, e.1@)) == s,
                orig.len() <= usize::MAX,
                i + old_entries@.len() == orig.len(),
                old_entries@ == orig.subrange(i as int, orig.len() as int),
                kept@.map_values(|e: (u128, PendingSend)| (e.0, e.1@)) == pass_table(s.take(i as int), now),
                out@.map_values(|x: (Vec<u8>, PeerAddr)| (x.0@, x.1)) == pass_resends(s.take(i as int), now),
            decreases old_entries@.len(),
        {
            let (id, mut e) = old_entries.remove(0);
            assert(old_entries@ =~= orig.subrange(i + 1, orig.len() as int));
            proof {
                assert(s.take(i + 1).drop_last() =~= s.take(i as int));
                assert(s.take(i + 1).last() == (id, e@));
            }
            if e.retries < MAX_RETRIES {
                if age(now, e.last_sent) > RETRY_DELAY_MS {
                    e.last_sent = now;
                    e.retries = e.retries + 1;
                    let copy = e.serialized.clone();
                    assert(copy@ =~= e.serialized@);
                    let ghost ob = out@.map_values(|x: (Vec<u8>, PeerAddr)| (x.0@, x.1));
                    out.push((copy, e.dest));
                    assert(out@.map_values(|x: (Vec<u8>, PeerAddr)| (x.0@, x.1)) =~= ob.push((copy@, e.dest)));
                }
                let ghost kb = kept@.map_values(|e: (u128, PendingSend)| (e.0, e.1@));
                kept.push((id, e));
                assert(kept@.map_values(|e: (u128, PendingSend)| (e.0, e.1@)) =~= kb.push((id, e@)));
            }
            i = i + 1;
        }
        assert(s.take(s.len() as int) =~= s);
        proof {
            lemma_pass_table_keys(s, now);
        }
        self.entries = kept;
        out
    }
}


/// The oldest remembered ID: the first of those seen earliest.
pub open spec fn oldest_index(s: Seq<(u128, u64)>) -> int
    decreases s.len(),
{
    if s.len() <= 1 {
        0
    } else {
        let j = oldest_index(s.drop_last());
        if s.last().1 < s[j].1 { s.len() - 1 } else { j }
    }
}

pub open spec fn seen_recently(now: u64) -> spec_fn((u128, u64)) -> bool {
    |e: (u128, u64)| elapsed(now, e.1) < DEDUP_TTL_MS
}

/// What the duplicate filter does with packet `id` at `now`: a packet seen
/// within the TTL is a duplicate and changes nothing; otherwise it is
/// remembered as seen now, after old IDs are pruned when the filter is full
/// and the oldest is dropped when it is still full.
pub open spec fn dedup_step(s: Seq<(u128, u64)>, id: u128, now: u64) -> (bool, Seq<(u128, u64)>) {
    match assoc_get(s, id) {
        Some(t) if elapsed(now, t) < DEDUP_TTL_MS => (false, s),
        _ => {
            let s1 = if s.len() >= MAX_SEEN { s.filter(seen_recently(now)) } else { s };
            let s2 = if s1.len() >= MAX_SEEN { s1.remove(oldest_index(s1)) } else { s1 };
            (true, assoc_insert(s2, id, now))
        },
    }
}

/// The oldest entry of a non-empty list is one of its positions.
pub proof fn lemma_oldest_range(s: Seq<(u128, u64)>)
    requires
        s.len() > 0,
    ensures
        0 <= oldest_index(s) < s.len(),
    decreases s.len(),
{
    if s.len() > 1 {
        lemma_oldest_range(s.drop_last());
    }
}

/// The IDs of recently received packets, with when each was first seen.
pub struct SeenCache {
    entries: Vec<(u128, u64)>,
}

impl View for SeenCache {
    type V = Seq<(u128, u64)>;

    closed spec fn view(&self) -> Seq<(u128, u64)> {
        self.entries@
    }
}

impl SeenCache {
    pub closed spec fn wf(&self) -> bool {
        keys_distinct(self@)
    }

    pub fn new() -> (r: Self)
        ensures
            r.wf(),
            r@.len() == 0,
    {
        SeenCache { entries: Vec::new() }
    }

    /// Whether packet `id`, received at `now`, is new; it is remembered if so.
    pub fn check_new_at(&mut self, id: u128, now: u64) -> (r: bool)
        requires
            old(self).wf(),
        ensures
            final(self).wf(),
            (r, final(self)@) == dedup_step(old(self)@, id, now),
    {
        let ghost s = self@;
        let mut i: usize = 0;
        while i < self.entries.len()
            invariant
                s == self@,
                i <= s.len(),
                forall|j: int| 0 <= j < i ==> (#[trigger] s[j]).0 != id,
            ensures
                i <= s.len(),
                forall|j: int| 0 <= j < i ==> (#[trigger] s[j]).0 != id,
                i < s.len() ==> s[i as int].0 == id,
            decreases s.len() - i,
        {
            if self.entries[i].0 == id {
                break;
            }
            i = i + 1;
        }
        if i < self.entries.len() {
            proof {
                lemma_assoc_get(s, i as int);
            }
            if age(now, self.entries[i].1) < DEDUP_TTL_MS {
                return false;
            }
        } else {
            assert(!(exists|j: int| 0 <= j < s.len() && #[trigger] s[j].0 == id));
        }
        if self.entries.len() >= MAX_SEEN {
            let mut kept: Vec<(u128, u64)> = Vec::new();
            let mut k: usize = 0;
            while k < self.entries.len()
                invariant
                    s == self@,
                    k <= s.len(),
                    kept@ == s.take(k as int).filter(seen_recently(now)),
                decreases s.len() - k,
            {
                proof {
                    reveal(Seq::filter);
                    assert(s.take(k + 1).drop_last() =~= s.take(k as int));
                }
                let e = self.entries[k];
                if age(now, e.1) < DEDUP_TTL_MS {
                    kept.push(e);
                }
                k = k + 1;
            }
            assert(s.take(s.len() as int) =~= s);
            proof {
                lemma_filter_keys_distinct(s, seen_recently(now));
            }
            self.entries = kept;
        }
        let ghost s1 = self@;
        if self.entries.len() >= MAX_SEEN {
            let mut best: usize = 0;
            let mut k: usize = 1;
            while k < self.entries.len()
                invariant
                    s1 == self@,
                    1 <= k <= s1.len(),
                    best < k,
                    best as int == oldest_index(s1.take(k as int)),
                decreases s1.len() - k,
            {
                proof {
                    assert(s1.take(k + 1).drop_last() =~= s1.take(k as int));
                }
                if self.entries[k].1 < self.entries[best].1 {
                    best = k;
                }
                k = k + 1;
            }
            assert(s1.take(s1.len() as int) =~= s1);
            self.entries.remove(best);
            proof {
                assert forall|a: int, b: int| 0 <= a < b < self@.len() implies #[trigger] self@[a].0 != #[trigger] self@[b].0 by {
                    let aa = if a < best { a } else { a + 1 };
                    let bb = if b < best { b } else { b + 1 };
                    assert(self@[a] == s1[aa] && self@[b] == s1[bb]);
                }
            }
        }
        let ghost s2 = self@;
        proof {
            lemma_assoc_insert(s2, id, now);
        }
        let mut j: usize = 0;
        while j < self.entries.len()
            invariant
                s2 == self@,
                j <= s2.len(),
                forall|m: int| 0 <= m < j ==> (#[trigger] s2[m]).0 != id,
            ensures
                j <= s2.len(),
                forall|m: int| 0 <= m < j ==> (#[trigger] s2[m]).0 != id,
                j < s2.len() ==> s2[j as int].0 == id,
            decreases s2.len() - j,
        {
            if self.entries[j].0 == id {
                break;
            }
            j = j + 1;
        }
        if j < self.entries.len() {
            self.entries.set(j, (id, now));
            assert(self@ =~= s2.update(j as int, (id, now)));
        } else {
            self.entries.push((id, now));
            assert(!(exists|m: int| 0 <= m < s2.len() && #[trigger] s2[m].0 == id));
        }
        true
    }
}

/// The bytes an acknowledgement's signature covers: the packet ID, big-endian.
pub open spec fn ack_message(id: u128) -> Seq<u8> {
    be_u128(id)
}

/// Whether an acknowledgement of packet `p` from `sender` settles a pending
/// send, and the trusted keys afterwards: it must answer a pending send to
/// that address; a short payload is an unsigned acknowledgement and is
/// accepted; otherwise the payload is `[key: 32] [signature: 64]`, the key
/// must be a valid point, and the signature must verify under the key
/// already trusted for the sender, or, with none trusted yet, the key is
/// trusted from now on.
pub open spec fn ack_outcome(p: PacketView, pending: Seq<(u128, SendView)>, keys: Seq<PeerKeyEntry>, sender: PeerAddr)
    -> (bool, Seq<PeerKeyEntry>)
{
    let d = p.payload.data;
    match assoc_get(pending, p.id) {
        None => (false, keys),
        Some(entry) => if entry.dest != sender {
            (false, keys)
        } else if d.len() < 96 {
            (true, keys)
        } else if !ed25519_point_valid(d.subrange(0, 32)) {
            (false, keys)
        } else {
            match assoc_get(keys, sender) {
                Some(expected) => (ed25519_verifies(expected, ack_message(p.id), d.subrange(32, 96)), keys),
                None => (true, assoc_insert(keys, sender, d.subrange(0, 32))),
            }
        },
    }
}

/// Examines an incoming acknowledgement; returns whether its pending send
/// is settled.
pub fn verify_ack(packet: &Packet, pending: &PendingSends, peer_keys: &mut PeerKeyMap, sender: PeerAddr) -> (r: bool)
    requires
        pending.wf(),
        old(peer_keys).wf(),
    ensures
        final(peer_keys).wf(),
        (r, final(peer_keys)@) == ack_outcome(packet@, pending@, old(peer_keys)@, sender),
{
    let dest = match pending.dest_of(packet.header.id) {
        Some(d) => d,
        None => return false,
    };
    if dest != sender {
        return false;
    }
    let data = packet.payload.data.as_slice();
    if data.len() < 96 {
        return true;
    }
    let pubkey: [u8; 32] = copy_array::<32>(data, 0);
    let sig: [u8; 64] = copy_array::<64>(data, 32);
    if !ed25519_valid_point(&pubkey) {
        return false;
    }
    match peer_keys.get(&sender) {
        Some(expected) => {
            let mut msg: Vec<u8> = Vec::new();
            push_u128(&mut msg, packet.header.id);
            ed25519_check(&expected, msg.as_slice(), &sig)
        },
        None => {
            peer_keys.insert(sender, pubkey);
            true
        },
    }
}

/// The acknowledgement of packet `id`: flag `Ack`, a `KeepAlive` payload
/// that holds, when a signing key is given, its public key and its
/// signature of the ID.
pub fn build_ack(signing_secret: Option<&[u8; 32]>, id: u128) -> (r: Packet)
    ensures
        r@.version == CURRENT_VERSION,
        r@.flags == flag_bit(PacketFlag::Ack),
        r@.id == id,
        r@.payload.tag == PayloadTag::KeepAlive,
        r@.payload.fragment_id == 0,
        r@.payload.fragment_index == 0,
        r@.payload.fragment_total == 0,
        r@.payload.data == match signing_secret {
            Some(k) => ed25519_public(k@) + ed25519_signature(k@, ack_message(id)),
            None => Seq::<u8>::empty(),
        },
{
    let mut data: Vec<u8> = Vec::new();
    match signing_secret {
        Some(key) => {
            let public = ed25519_public_key(key);
            let mut msg: Vec<u8> = Vec::new();
            push_u128(&mut msg, id);
            let sig = ed25519_sign(key, msg.as_slice());
            push_all(&mut data, public.as_slice());
            push_all(&mut data, sig.as_slice());
        },
        None => {},
    }
    Packet::new(flag_to_int(PacketFlag::Ack), id, Payload::new(PayloadTag::KeepAlive, data))
}

/// `f` is fragment `i` of `n` of `p`, asking for an acknowledgement.
pub open spec fn acked_fragment_of(f: PacketView, p: PacketView, i: int, n: int) -> bool {
    exists|g: PacketView| #[trigger] fragment_of(g, p, i, n)
        && f == (PacketView { flags: g.flags | flag_bit(PacketFlag::AckRequired), ..g })
}

/// The fragments of a packet as the reliable transport sends them: each
/// also asks for an acknowledgement.
pub fn reliable_fragments(packet: &Packet) -> (r: Vec<Packet>)
    requires
        splittable(packet@),
    ensures
        chunk_count(packet_wire(packet@).len()) % 256 <= 1 ==> r@.len() == 1
            && r@[0]@ == (PacketView { flags: packet@.flags | flag_bit(PacketFlag::AckRequired), ..packet@ }),
        chunk_count(packet_wire(packet@).len()) % 256 > 1 ==> r@.len() == chunk_count(packet_wire(packet@).len()),
        chunk_count(packet_wire(packet@).len()) % 256 > 1 ==> forall|i: int|
            0 <= i < chunk_count(packet_wire(packet@).len())
            ==> acked_fragment_of(#[trigger] r@[i]@, packet@, i, chunk_count(packet_wire(packet@).len()) as int),
{
    let frags = split_packet(packet);
    let mut out: Vec<Packet> = Vec::new();
    let mut i: usize = 0;
    let ghost fs = frags@;
    let mut frags = frags;
    while frags.len() > 0
        invariant
            i + frags@.len() == fs.len(),
            frags@ == fs.subrange(i as int, fs.len() as int),
            fs.len() <= usize::MAX,
            out@.len() == i,
            forall|k: int| 0 <= k < i ==> (#[trigger] out@[k])@ == (PacketView {
                flags: fs[k]@.flags | flag_bit(PacketFlag::AckRequired),
                ..fs[k]@
            }),
        decreases frags@.len(),
    {
        let mut f = frags.remove(0);
        assert(f == fs[i as int]);
        assert(frags@ =~= fs.subrange(i + 1, fs.len() as int));
        let mut flags = f.header.flags.to_int();
        flags = flags | flag_to_int(PacketFlag::AckRequired);
        f.header.flags = crate::protocol::packet::PacketFlags::from_int(flags);
        out.push(f);
        i = i + 1;
    }
    proof {
        let n = chunk_count(packet_wire(packet@).len());
        assert(out@.len() == fs.len());
        if (n % 256) <= 1 {
            assert(fs.len() == 1);
            assert(fs[0]@ == packet@);
            assert(out@[0]@ == (PacketView { flags: fs[0]@.flags | flag_bit(PacketFlag::AckRequired), ..fs[0]@ }));
            assert(out@[0]@ == (PacketView { flags: packet@.flags | flag_bit(PacketFlag::AckRequired), ..packet@ }));
        }
        assert forall|k: int|
            chunk_count(packet_wire(packet@).len()) % 256 > 1 && 0 <= k < chunk_count(packet_wire(packet@).len())
            implies acked_fragment_of(#[trigger] out@[k]@, packet@, k, chunk_count(packet_wire(packet@).len()) as int) by {
            assert(fragment_of(fs[k]@, packet@, k, chunk_count(packet_wire(packet@).len()) as int));
        }
    }
    out
}

} // verus!
