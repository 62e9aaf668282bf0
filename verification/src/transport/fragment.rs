//! Splitting large packets into fragments, and putting them back together.

use vstd::prelude::*;
use crate::assoc::{assoc_get, assoc_insert, keys_distinct, lemma_assoc_insert, lemma_assoc_get, lemma_assoc_insert_get};
use crate::clock::now_millis;
use crate::crypto::random::random_u128;
use crate::network::addr::PeerAddr;
use crate::protocol::packet::{Packet, PacketView, PacketFlag, CURRENT_VERSION, flag_to_int, packet_wire, parse_packet};
use crate::protocol::payload::{Payload, PayloadView};
use crate::protocol::wire::{copy_range, push_all};

verus! {

/// Most bytes of serialized packet per fragment.
pub const MAX_CHUNK: usize = 1200;
/// An unfinished reassembly is dropped after this long (milliseconds).
pub const ENTRY_TIMEOUT_MS: u64 = 60_000;

/// How many chunks `len` bytes take.
pub open spec fn chunk_count(len: nat) -> nat {
    len / 1200 + if len % 1200 == 0 { 0nat } else { 1nat }
}

/// The `i`-th chunk of `s`.
pub open spec fn chunk_of(s: Seq<u8>, i: int) -> Seq<u8> {
    s.subrange(i * 1200, if (i + 1) * 1200 < s.len() { (i + 1) * 1200 } else { s.len() as int })
}

/// Flags of a fragment: `Fragmented`, and `LastFragment` on the last one.
pub open spec fn fragment_flags(last: bool) -> u32 {
    if last { 12 } else { 4 }
}

/// `f` is fragment `i` of `n` of packet `p`; its own ID is free.
pub open spec fn fragment_of(f: PacketView, p: PacketView, i: int, n: int) -> bool {
    &&& f.version == CURRENT_VERSION
    &&& f.flags == fragment_flags(i + 1 == n)
    &&& f.payload == (PayloadView {
        tag: p.payload.tag,
        data: chunk_of(packet_wire(p), i),
        fragment_id: p.id,
        fragment_index: i as u8,
        fragment_total: n as u8,
    })
}

/// Packets whose fragment count fits a `u8`, or leaves 0 or 1 when cut to
/// one, are the ones that can be split.
pub open spec fn splittable(p: PacketView) -> bool {
    let n = chunk_count(packet_wire(p).len());
    n < 256 || n % 256 <= 1
}

proof fn lemma_chunk_bounds(len: nat, i: int)
    requires
        0 <= i < chunk_count(len),
    ensures
        i * 1200 < len,
        i * 1200 + 1200 <= len || i + 1 == chunk_count(len),
{
    assert(i * 1200 < len && (i * 1200 + 1200 <= len || i + 1 == chunk_count(len))) by (nonlinear_arith)
        requires
            0 <= i < len / 1200 + if len % 1200 == 0 { 0nat } else { 1nat },
            chunk_count(len) == len / 1200 + if len % 1200 == 0 { 0nat } else { 1nat },
    {
        assert(len == 1200 * (len / 1200) + len % 1200);
    }
}

/// Whether `split_packet` takes the packet: its fragment count fits a byte,
/// or leaves 0 or 1 when cut to one.
pub fn can_split(packet: &Packet) -> (r: bool)
    ensures
        r == splittable(packet@),
{
    let len = packet.serialize().len();
    let n: usize = len / MAX_CHUNK + if len % MAX_CHUNK == 0 { 0 } else { 1 };
    n < 256 || n % 256 <= 1
}

/// Splits a packet whose serialized form exceeds `MAX_CHUNK` bytes into
/// fragments; a smaller packet comes back whole.
pub fn split_packet(packet: &Packet) -> (r: Vec<Packet>)
    requires
        splittable(packet@),
    ensures
        ({
            let n = chunk_count(packet_wire(packet@).len());
            if (n % 256) <= 1 {
                r@.len() == 1 && r@[0]@ == packet@
            } else {
                r@.len() == n && forall|i: int| 0 <= i < n ==> fragment_of(#[trigger] r@[i]@, packet@, i, n as int)
            }
        }),
{
    let serialized = packet.serialize();
    let len = serialized.len();
    let n: usize = len / MAX_CHUNK + if len % MAX_CHUNK == 0 { 0 } else { 1 };
    let total = (n % 256) as u8;
    if total <= 1 {
        let mut v: Vec<Packet> = Vec::new();
        v.push(packet.clone());
        return v;
    }
    let fragment_id = packet.header.id;
    let mut fragments: Vec<Packet> = Vec::new();
    let mut i: usize = 0;
    while i < n
        invariant
            serialized@ == packet_wire(packet@),
            len == serialized@.len(),
            n == chunk_count(len as nat),
            n < 256,
            total == n as u8,
            fragment_id == packet@.id,
            i <= n,
            fragments@.len() == i,
            forall|k: int| 0 <= k < i ==> fragment_of(#[trigger] fragments@[k]@, packet@, k, n as int),
        decreases n - i,
    {
        proof {
            lemma_chunk_bounds(len as nat, i as int);
        }
        let start = i * MAX_CHUNK;
        let end = if start + MAX_CHUNK < len { start + MAX_CHUNK } else { len };
        let chunk = copy_range(serialized.as_slice(), start, end - start);
        let idx = i as u8;
        let is_last = idx + 1 == total;
        let flags = if is_last {
            flag_to_int(PacketFlag::Fragmented) | flag_to_int(PacketFlag::LastFragment)
        } else {
            flag_to_int(PacketFlag::Fragmented)
        };
        assert((4u32 | 8u32) == 12u32) by (bit_vector);
        let frag = Packet::new(
            flags,
            random_u128(),
            Payload::new_fragment(packet.payload.tag, chunk, fragment_id, idx, total),
        );
        assert(chunk@ == chunk_of(packet_wire(packet@), i as int));
        fragments.push(frag);
        i = i + 1;
    }
    fragments
}

pub open spec fn opt_bytes(c: Option<Vec<u8>>) -> Option<Seq<u8>> {
    match c {
        Some(v) => Some(v@),
        None => None,
    }
}

pub struct PendingView {
    pub total: u8,
    pub chunks: Seq<Option<Seq<u8>>>,
    pub started: u64,
}

pub struct PendingReassembly {
    total: u8,
    chunks: Vec<Option<Vec<u8>>>,
    started: u64,
}

impl View for PendingReassembly {
    type V = PendingView;

    closed spec fn view(&self) -> PendingView {
        PendingView {
            total: self.total,
            chunks: self.chunks@.map_values(|c: Option<Vec<u8>>| opt_bytes(c)),
            started: self.started,
        }
    }
}

/// A reassembly of `total` fragments started at `now`, none received.
pub open spec fn fresh_pending(total: u8, now: u64) -> PendingView {
    PendingView { total, chunks: Seq::new(total as nat, |i: int| None), started: now }
}

/// The received chunks, in order, joined.
pub open spec fn joined(cs: Seq<Option<Seq<u8>>>) -> Seq<u8>
    decreases cs.len(),
{
    if cs.len() == 0 {
        Seq::empty()
    } else {
        joined(cs.drop_last()) + match cs.last() {
            Some(c) => c,
            None => Seq::empty(),
        }
    }
}

/// The packet bytes, once every chunk has arrived.
pub open spec fn assembled(p: PendingView) -> Option<Seq<u8>> {
    if forall|i: int| 0 <= i < p.chunks.len() ==> (#[trigger] p.chunks[i]) is Some {
        Some(joined(p.chunks))
    } else {
        None
    }
}

/// The chunks of `w`, all received.
pub open spec fn all_chunks(w: Seq<u8>, k: nat) -> Seq<Option<Seq<u8>>> {
    Seq::new(k, |i: int| Some(chunk_of(w, i)))
}

proof fn lemma_join_prefix(w: Seq<u8>, k: nat)
    requires
        k <= chunk_count(w.len()),
    ensures
        joined(all_chunks(w, k)) == w.subrange(0, if k * 1200 < w.len() { (k * 1200) as int } else { w.len() as int }),
    decreases k,
{
    if k > 0 {
        lemma_join_prefix(w, (k - 1) as nat);
        assert(all_chunks(w, k).drop_last() =~= all_chunks(w, (k - 1) as nat));
        lemma_chunk_bounds(w.len(), k - 1);
        let a = (k - 1) * 1200;
        assert(a < w.len());
        assert((k - 1) * 1200 + 1200 == k * 1200) by (nonlinear_arith);
        assert(w.subrange(0, a) + chunk_of(w, k - 1) =~= w.subrange(0, if k * 1200 < w.len() { (k * 1200) as int } else { w.len() as int }));
    } else {
        assert(w.subrange(0, 0) =~= Seq::<u8>::empty());
    }
}

/// Once every fragment of a packet has arrived, its chunks join into the
/// packet's wire form, which reads back as the packet.
pub proof fn lemma_fragments_rejoin(p: PacketView)
    ensures
        ({
            let w = packet_wire(p);
            let n = chunk_count(w.len());
            &&& assembled(PendingView { total: n as u8, chunks: all_chunks(w, n), started: 0 }) == Some(w)
            &&& parse_packet(w) == Some(p)
        }),
{
    let w = packet_wire(p);
    let n = chunk_count(w.len());
    lemma_join_prefix(w, n);
    assert(n * 1200 >= w.len()) by (nonlinear_arith)
        requires n == w.len() / 1200 + if w.len() % 1200 == 0 { 0nat } else { 1nat };
    assert(w.subrange(0, w.len() as int) =~= w);
    crate::protocol::packet::lemma_packet_roundtrip(p);
}

impl PendingReassembly {
    pub closed spec fn wf(&self) -> bool {
        self.chunks@.len() == self.total
    }

    /// A reassembly of `total` fragments started at `now`.
    pub fn new_at(total: u8, now: u64) -> (r: Self)
        ensures
            r.wf(),
            r@ == fresh_pending(total, now),
    {
        let mut chunks: Vec<Option<Vec<u8>>> = Vec::new();
        let mut i: u8 = 0;
        while i < total
            invariant
                i <= total,
                chunks@.len() == i,
                forall|k: int| 0 <= k < i ==> (#[trigger] chunks@[k]) is None,
            decreases total - i,
        {
            chunks.push(None);
            i = i + 1;
        }
        let r = PendingReassembly { total, chunks, started: now };
        assert(r@.chunks =~= fresh_pending(total, now).chunks);
        r
    }

    /// A reassembly of `total` fragments started now, by the wall clock.
    pub fn new(total: u8) -> (r: Self)
        ensures
            r.wf(),
            exists|now: u64| r@ == fresh_pending(total, now),
    {
        let now = now_millis();
        Self::new_at(total, now)
    }

    /// The joined chunks, if every one has arrived.
    pub fn is_full(&self) -> (r: Option<Vec<u8>>)
        ensures
            opt_bytes(r) == assembled(self@),
    {
        let ghost cs = self@.chunks;
        let mut data: Vec<u8> = Vec::new();
        let mut i: usize = 0;
        while i < self.chunks.len()
            invariant
                cs == self@.chunks,
                i <= cs.len(),
                forall|k: int| 0 <= k < i ==> (#[trigger] cs[k]) is Some,
                data@ == joined(cs.take(i as int)),
            decreases cs.len() - i,
        {
            assert(cs[i as int] == opt_bytes(self.chunks@[i as int]));
            match &self.chunks[i] {
                None => {
                    return None;
                },
                Some(c) => {
                    push_all(&mut data, c.as_slice());
                },
            }
            proof {
                assert(cs.take(i + 1).drop_last() =~= cs.take(i as int));
            }
            i = i + 1;
        }
        assert(cs.take(cs.len() as int) =~= cs);
        Some(data)
    }
}

pub type ReassemblyKey = (u128, PeerAddr);

pub struct Reassembler {
    pending: Vec<(ReassemblyKey, PendingReassembly)>,
}

impl View for Reassembler {
    type V = Seq<(ReassemblyKey, PendingView)>;

    closed spec fn view(&self) -> Seq<(ReassemblyKey, PendingView)> {
        self.pending@.map_values(|e: (ReassemblyKey, PendingReassembly)| (e.0, e.1@))
    }
}

/// The reassembly that a fragment goes into: the one under way for its key
/// if its total matches, else a fresh one started at `now`.
pub open spec fn reassembly_base(s: Seq<(ReassemblyKey, PendingView)>, key: ReassemblyKey, total: u8, now: u64) -> PendingView {
    match assoc_get(s, key) {
        Some(pr) => if pr.total != total { fresh_pending(total, now) } else { pr },
        None => fresh_pending(total, now),
    }
}

pub open spec fn young_at(now: u64) -> spec_fn((ReassemblyKey, PendingView)) -> bool {
    |e: (ReassemblyKey, PendingView)| (if now > e.1.started { now - e.1.started } else { 0 }) < ENTRY_TIMEOUT_MS
}

/// What feeding `p` from `sender` at `now` does to the reassemblies, and
/// the packet that comes out: a packet that is no fragment comes back whole
/// and changes nothing; a fragment is put into its reassembly, which comes
/// back once every chunk is in and the joined bytes read as a packet.
pub open spec fn feed_result(s: Seq<(ReassemblyKey, PendingView)>, p: PacketView, sender: PeerAddr, now: u64)
    -> (Seq<(ReassemblyKey, PendingView)>, Option<PacketView>)
{
    let pl = p.payload;
    if pl.fragment_id == 0 {
        (s, Some(p))
    } else {
        let key = (pl.fragment_id, sender);
        let base = reassembly_base(s, key, pl.fragment_total, now);
        let pr = PendingView { chunks: base.chunks.update(pl.fragment_index as int, Some(pl.data)), ..base };
        (assoc_insert(s, key, pr), match assembled(pr) {
            None => None,
            Some(bytes) => parse_packet(bytes),
        })
    }
}

pub open spec fn packet_opt_view(r: Option<Packet>) -> Option<PacketView> {
    match r {
        Some(q) => Some(q@),
        None => None,
    }
}

pub open spec fn feed_outcome(
    s: Seq<(ReassemblyKey, PendingView)>,
    p: PacketView,
    sender: PeerAddr,
    now: u64,
    s2: Seq<(ReassemblyKey, PendingView)>,
    r: Option<Packet>,
) -> bool {
    (s2, packet_opt_view(r)) == feed_result(s, p, sender, now)
}

impl Reassembler {
    pub closed spec fn wf(&self) -> bool {
        &&& keys_distinct(self@)
        &&& forall|i: int| 0 <= i < self.pending@.len() ==> (#[trigger] self.pending@[i]).1.wf()
    }

    pub fn new() -> (r: Self)
        ensures
            r.wf(),
            r@.len() == 0,
    {
        Reassembler { pending: Vec::new() }
    }

    /// Takes in one packet from `sender` at `now`; returns the whole packet
    /// when it is no fragment, or when this fragment completes it and the
    /// joined bytes read as a packet.
    pub fn feed_at(&mut self, packet: &Packet, sender: PeerAddr, now: u64) -> (r: Option<Packet>)
        requires
            old(self).wf(),
            packet@.payload.fragment_id != 0 ==> packet@.payload.fragment_index < packet@.payload.fragment_total,
        ensures
            final(self).wf(),
            feed_outcome(old(self)@, packet@, sender, now, final(self)@, r),
    {
        let fragment_id = packet.payload.fragment_id;
        if fragment_id == 0 {
            return Some(packet.clone());
        }
        let index = packet.payload.fragment_index;
        let total = packet.payload.fragment_total;
        let key: ReassemblyKey = (fragment_id, sender);
        let ghost s = self@;
        let mut i: usize = 0;
        while i < self.pending.len()
            invariant
                s == self@,
                key == (fragment_id, sender),
                i <= s.len(),
                forall|j: int| 0 <= j < i ==> (#[trigger] s[j]).0 != key,
            ensures
                i <= s.len(),
                forall|j: int| 0 <= j < i ==> (#[trigger] s[j]).0 != key,
                i < s.len() ==> s[i as int].0 == key,
            decreases s.len() - i,
        {
            assert(s[i as int].0 == self.pending@[i as int].0);
            let k = self.pending[i].0;
            assert(k == self.pending@[i as int].0);
            let same = k.0 == fragment_id && k.1 == sender;
            if same {
                break;
            }
            i = i + 1;
        }
        let found = i < self.pending.len();
        let mut pr = if found {
            let (_, p) = self.pending.remove(i);
            proof {
                lemma_assoc_get(s, i as int);
            }
            if p.total != total {
                PendingReassembly::new_at(total, now)
            } else {
                p
            }
        } else {
            proof {
                assert(!(exists|j: int| 0 <= j < s.len() && #[trigger] s[j].0 == key));
            }
            PendingReassembly::new_at(total, now)
        };
        let ghost base = pr@;
        assert(base == reassembly_base(s, key, total, now));
        let data = packet.payload.data.clone();
        assert(data@ =~= packet.payload.data@);
        pr.chunks.set(index as usize, Some(data));
        assert(pr@.chunks =~= base.chunks.update(index as int, Some(packet@.payload.data)));
        let assembled_bytes = pr.is_full();
        proof {
            lemma_assoc_insert(s, key, pr@);
        }
        if found {
            self.pending.insert(i, (key, pr));
            assert(self@ =~= s.update(i as int, (key, self.pending@[i as int].1@)));
        } else {
            self.pending.push((key, pr));
            assert(self@ =~= s.push((key, self.pending@[s.len() as int].1@)));
        }
        match assembled_bytes {
            None => None,
            Some(bytes) => match Packet::from_serialized(bytes) {
                Ok(p) => Some(p),
                Err(_) => None,
            },
        }
    }

    /// `feed_at` by the wall clock.
    pub fn feed(&mut self, packet: &Packet, sender: PeerAddr) -> (r: Option<Packet>)
        requires
            old(self).wf(),
            packet@.payload.fragment_id != 0 ==> packet@.payload.fragment_index < packet@.payload.fragment_total,
        ensures
            final(self).wf(),
            exists|now: u64| #[trigger] feed_outcome(old(self)@, packet@, sender, now, final(self)@, r),
    {
        let now = now_millis();
        self.feed_at(packet, sender, now)
    }

    /// Drops the reassemblies started `ENTRY_TIMEOUT_MS` or more before `now`.
    pub fn evict_stale_at(&mut self, now: u64)
        requires
            old(self).wf(),
        ensures
            final(self).wf(),
            final(self)@ == old(self)@.filter(young_at(now)),
    {
        let ghost s = self@;
        let mut kept: Vec<(ReassemblyKey, PendingReassembly)> = Vec::new();
        let mut old_entries: Vec<(ReassemblyKey, PendingReassembly)> = Vec::new();
        std::mem::swap(&mut old_entries, &mut self.pending);
        assert(old_entries@.map_values(|e: (ReassemblyKey, PendingReassembly)| (e.0, e.1@)) == s);
        let ghost orig = old_entries@;
        assert(old_entries@ =~= orig.subrange(0, orig.len() as int));
        assert(orig.len() == old_entries.len());
        let mut i: usize = 0;
        while old_entries.len() > 0
            invariant
                orig.map_values(|e: (ReassemblyKey, PendingReassembly)| (e.0, e.1@)) == s,
                i + old_entries@.len() == orig.len(),
                orig.len() <= usize::MAX,
                old_entries@ == orig.subrange(i as int, orig.len() as int),
                kept@.map_values(|e: (ReassemblyKey, PendingReassembly)| (e.0, e.1@)) == s.take(i as int).filter(young_at(now)),
                forall|k: int| 0 <= k < kept@.len() ==> (#[trigger] kept@[k]).1.wf(),
                forall|k: int| 0 <= k < old_entries@.len() ==> (#[trigger] old_entries@[k]).1.wf(),
            decreases old_entries@.len(),
        {
            let ghost rem = old_entries@;
            let e = old_entries.remove(0);
            assert(e == rem[0]);
            assert(e.1.wf());
            assert(old_entries@ =~= orig.subrange(i + 1, orig.len() as int));
            proof {
                reveal(Seq::filter);
                assert(s.take(i + 1).drop_last() =~= s.take(i as int));
                assert(s.take(i + 1).last() == (e.0, e.1@));
            }
            let age = if now > e.1.started { now - e.1.started } else { 0 };
            if age < ENTRY_TIMEOUT_MS {
                let ghost before = kept@;
                kept.push(e);
                assert(kept@.map_values(|e: (ReassemblyKey, PendingReassembly)| (e.0, e.1@))
                    =~= before.map_values(|e: (ReassemblyKey, PendingReassembly)| (e.0, e.1@)).push((e.0, e.1@)));
            }
            i = i + 1;
        }
        assert(s.take(s.len() as int) =~= s);
        proof {
            crate::assoc::lemma_filter_keys_distinct(s, young_at(now));
        }
        self.pending = kept;
    }
}

/// `order` lists each of `0 .. n` exactly once.
pub open spec fn is_order(order: Seq<int>, n: int) -> bool {
    &&& order.len() == n
    &&& forall|k: int| 0 <= k < n ==> 0 <= #[trigger] order[k] < n
    &&& forall|a: int, b: int| 0 <= a < b < n ==> #[trigger] order[a] != #[trigger] order[b]
    &&& forall|i: int| 0 <= i < n ==> #[trigger] order.contains(i)
}

/// The chunks of wire form `w` (of `n` chunks) received once the fragments
/// `order[0 .. k]` have arrived.
pub open spec fn chunks_received(w: Seq<u8>, n: int, order: Seq<int>, k: int) -> Seq<Option<Seq<u8>>> {
    Seq::new(n as nat, |i: int| if order.take(k).contains(i) { Some(chunk_of(w, i)) } else { None })
}

/// What feeding fragments `order[0 .. k]` has left: the sender's
/// reassembly holds their chunks, and no feed but the last handed anything
/// up; the last one, when all have arrived, handed up the packet.
proof fn lemma_fed_prefix(
    p: PacketView,
    fs: Seq<PacketView>,
    order: Seq<int>,
    sender: PeerAddr,
    times: Seq<u64>,
    states: Seq<Seq<(ReassemblyKey, PendingView)>>,
    outs: Seq<Option<PacketView>>,
    k: int,
)
    requires
        p.id != 0,
        2 <= chunk_count(packet_wire(p).len()) < 256,
        fs.len() == chunk_count(packet_wire(p).len()),
        forall|i: int| 0 <= i < fs.len() ==> fragment_of(#[trigger] fs[i], p, i, fs.len() as int),
        is_order(order, fs.len() as int),
        times.len() == fs.len(),
        states.len() == fs.len() + 1,
        outs.len() == fs.len(),
        keys_distinct(states[0]),
        assoc_get(states[0], (p.id, sender)) is None,
        forall|j: int| 0 <= j < fs.len() ==> (states[j + 1], outs[j])
            == #[trigger] feed_result(states[j], fs[order[j]], sender, times[j]),
        0 <= k <= fs.len(),
    ensures
        keys_distinct(states[k]),
        k > 0 ==> assoc_get(states[k], (p.id, sender)) == Some(PendingView {
            total: fs.len() as u8,
            chunks: chunks_received(packet_wire(p), fs.len() as int, order, k),
            started: times[0],
        }),
        forall|j: int| 0 <= j < k && j < fs.len() - 1 ==> #[trigger] outs[j] is None,
        k == fs.len() ==> outs[fs.len() - 1] == Some(p),
    decreases k,
{
    if k == 0 {
        return;
    }
    let n = fs.len() as int;
    let w = packet_wire(p);
    let key = (p.id, sender);
    let k0 = k - 1;
    lemma_fed_prefix(p, fs, order, sender, times, states, outs, k0);
    let i = order[k0];
    let f = fs[i];
    assert(fragment_of(fs[i], p, i, n));
    assert(f.payload.fragment_id == p.id);
    assert(f.payload.fragment_total == n as u8);
    assert(f.payload.fragment_index as int == i);
    let base = reassembly_base(states[k0], key, n as u8, times[k0]);
    let pr = PendingView { chunks: base.chunks.update(i, Some(f.payload.data)), ..base };
    assert((states[k], outs[k0]) == feed_result(states[k0], fs[order[k0]], sender, times[k0]));
    assert(states[k] == assoc_insert(states[k0], key, pr));
    assert(outs[k0] == match assembled(pr) {
        None => None,
        Some(bytes) => parse_packet(bytes),
    });
    assert(pr.chunks =~= chunks_received(w, n, order, k)) by {
        assert forall|x: int| 0 <= x < n implies #[trigger] pr.chunks[x] == chunks_received(w, n, order, k)[x] by {
            if x == i {
                assert(order.take(k)[k0] == i);
            } else {
                assert(order.take(k).contains(x) == order.take(k0).contains(x)) by {
                    if order.take(k).contains(x) {
                        let y = choose|y: int| 0 <= y < k && #[trigger] order.take(k)[y] == x;
                        assert(order.take(k0)[y] == x);
                    }
                    if order.take(k0).contains(x) {
                        let y = choose|y: int| 0 <= y < k0 && #[trigger] order.take(k0)[y] == x;
                        assert(order.take(k)[y] == x);
                    }
                }
            }
        }
    }
    lemma_assoc_insert_get(states[k0], key, pr, key);
    lemma_assoc_insert(states[k0], key, pr);
    if k < n {
        let missing = order[n - 1];
        assert(!order.take(k).contains(missing)) by {
            if order.take(k).contains(missing) {
                let y = choose|y: int| 0 <= y < k && #[trigger] order.take(k)[y] == missing;
                assert(order[y] == order[n - 1]);
            }
        }
        assert(pr.chunks[missing] is None);
        assert(assembled(pr) is None);
    } else {
        assert(pr.chunks =~= all_chunks(w, n as nat)) by {
            assert forall|x: int| 0 <= x < n implies #[trigger] pr.chunks[x] == all_chunks(w, n as nat)[x] by {
                assert(order.contains(x));
                let y = choose|y: int| 0 <= y < order.len() && #[trigger] order[y] == x;
                assert(order.take(k)[y] == x);
            }
        }
        lemma_fragments_rejoin(p);
        assert(assembled(PendingView { total: n as u8, chunks: all_chunks(w, n as nat), started: 0 }) == Some(w));
        assert(assembled(pr) == Some(w));
    }
}

/// A packet's fragments, fed one by one in any order, each once, from one
/// sender that has no reassembly of it under way: every feed but the last
/// hands nothing up, and the last hands up the packet, whose wire form is
/// the one that was split.
pub proof fn lemma_fed_in_any_order(
    p: PacketView,
    fs: Seq<PacketView>,
    order: Seq<int>,
    sender: PeerAddr,
    times: Seq<u64>,
    states: Seq<Seq<(ReassemblyKey, PendingView)>>,
    outs: Seq<Option<PacketView>>,
)
    requires
        p.id != 0,
        2 <= chunk_count(packet_wire(p).len()) < 256,
        fs.len() == chunk_count(packet_wire(p).len()),
        forall|i: int| 0 <= i < fs.len() ==> fragment_of(#[trigger] fs[i], p, i, fs.len() as int),
        is_order(order, fs.len() as int),
        times.len() == fs.len(),
        states.len() == fs.len() + 1,
        outs.len() == fs.len(),
        keys_distinct(states[0]),
        assoc_get(states[0], (p.id, sender)) is None,
        forall|k: int| 0 <= k < fs.len() ==> (states[k + 1], outs[k])
            == #[trigger] feed_result(states[k], fs[order[k]], sender, times[k]),
    ensures
        forall|k: int| 0 <= k < fs.len() - 1 ==> #[trigger] outs[k] is None,
        outs[fs.len() - 1] == Some(p),
        outs[fs.len() - 1] matches Some(q) && packet_wire(q) == packet_wire(p),
{
    lemma_fed_prefix(p, fs, order, sender, times, states, outs, fs.len() as int);
}

} // verus!
