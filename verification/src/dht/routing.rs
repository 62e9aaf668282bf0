//! The Kademlia routing table: 256 buckets, indexed by the length of the
//! common bit prefix with the local ID, each with up to `K` active entries and
//! up to `K` replacement candidates.
//!
//! Times are milliseconds on a clock the caller reads; the methods without
//! `_at` read the wall clock themselves.

use vstd::prelude::*;
use crate::clock::now_millis;
use crate::dht::node_id::{NodeID, common_prefix_bits, xor_distance, lemma_common_prefix_range};
use crate::protocol::wire::{u128_of_be, read_u128};
use crate::network::addr::PeerAddr;

verus! {

/// Bucket capacity, for the active list and for the candidate list each.
pub const K: usize = 20;
/// A node is pinged again only after this long.
pub const PING_COOLDOWN_MS: u64 = 60_000;
/// A node that has not answered for this long is stale.
pub const STALE_THRESHOLD_MS: u64 = 120_000;

#[derive(Clone, Copy)]
pub struct Entry {
    pub id: NodeID,
    pub addr: PeerAddr,
    /// Last time any response came from this node.
    pub last_seen: u64,
    /// Last time a ping was sent to it.
    pub last_pinged: Option<u64>,
}

pub struct BucketView {
    pub active: Seq<Entry>,
    pub candidates: Seq<Entry>,
}

pub struct RoutingView {
    pub local: Seq<u8>,
    pub buckets: Seq<BucketView>,
}

/// Time from `then` to `now`, zero when `then` is later.
pub open spec fn elapsed(now: u64, then: u64) -> int {
    if now > then { now - then } else { 0 }
}

/// The bucket of `id`: its common prefix length with the local ID, the last
/// bucket for the local ID itself.
pub open spec fn bucket_of(local: Seq<u8>, id: Seq<u8>) -> int {
    match common_prefix_bits(local, id) {
        Some(n) => n,
        None => 255,
    }
}

pub open spec fn lists_id(s: Seq<Entry>, id: Seq<u8>) -> bool {
    exists|i: int| 0 <= i < s.len() && #[trigger] s[i].id.id@ == id
}

pub open spec fn other_than(id: Seq<u8>) -> spec_fn(Entry) -> bool {
    |e: Entry| e.id.id@ != id
}

pub open spec fn fresh_at(now: u64) -> spec_fn(Entry) -> bool {
    |e: Entry| elapsed(now, e.last_seen) < STALE_THRESHOLD_MS
}

/// No ID occurs twice in `s`.
pub open spec fn no_dup(s: Seq<Entry>) -> bool {
    forall|i: int, j: int| 0 <= i < j < s.len() ==> #[trigger] s[i].id.id@ != #[trigger] s[j].id.id@
}

/// No ID occurs in both lists.
pub open spec fn disjoint(a: Seq<Entry>, c: Seq<Entry>) -> bool {
    forall|i: int| 0 <= i < a.len() ==> !lists_id(c, #[trigger] a[i].id.id@)
}

/// Every entry of `s` belongs in bucket `idx` and is not the local node.
pub open spec fn placed(local: Seq<u8>, idx: int, s: Seq<Entry>) -> bool {
    forall|i: int| 0 <= i < s.len() ==> bucket_of(local, #[trigger] s[i].id.id@) == idx && s[i].id.id@ != local
}

pub open spec fn bucket_wf(local: Seq<u8>, idx: int, b: BucketView) -> bool {
    &&& b.active.len() <= K
    &&& b.candidates.len() <= K
    &&& no_dup(b.active)
    &&& no_dup(b.candidates)
    &&& disjoint(b.active, b.candidates)
    &&& placed(local, idx, b.active)
    &&& placed(local, idx, b.candidates)
}

/// The table's invariant: 256 buckets, each within capacity, each ID at most
/// once and in the bucket of its prefix length, the local ID nowhere.
pub open spec fn table_wf(t: RoutingView) -> bool {
    &&& t.local.len() == 32
    &&& t.buckets.len() == 256
    &&& forall|i: int| 0 <= i < 256 ==> #[trigger] bucket_wf(t.local, i, t.buckets[i])
}

pub open spec fn new_entry(id: NodeID, addr: PeerAddr, now: u64) -> Entry {
    Entry { id, addr, last_seen: now, last_pinged: None }
}

/// An entry seen now: moved to the end of the list that holds it, else
/// appended to the active list if it has room, else to the candidates if they
/// have room, else dropped.
pub open spec fn bucket_add(b: BucketView, e: Entry) -> BucketView {
    let id = e.id.id@;
    if lists_id(b.active, id) {
        BucketView { active: b.active.filter(other_than(id)).push(e), candidates: b.candidates }
    } else if lists_id(b.candidates, id) {
        BucketView { active: b.active, candidates: b.candidates.filter(other_than(id)).push(e) }
    } else if b.active.len() < K {
        BucketView { active: b.active.push(e), candidates: b.candidates }
    } else if b.candidates.len() < K {
        BucketView { active: b.active, candidates: b.candidates.push(e) }
    } else {
        b
    }
}

/// A known entry seen now: moved to the end of its list; unknown IDs change nothing.
pub open spec fn bucket_refresh(b: BucketView, e: Entry) -> BucketView {
    let id = e.id.id@;
    if lists_id(b.active, id) {
        BucketView { active: b.active.filter(other_than(id)).push(e), candidates: b.candidates }
    } else if lists_id(b.candidates, id) {
        BucketView { active: b.active, candidates: b.candidates.filter(other_than(id)).push(e) }
    } else {
        b
    }
}

pub open spec fn with_bucket(t: RoutingView, idx: int, b: BucketView) -> RoutingView {
    RoutingView { local: t.local, buckets: t.buckets.update(idx, b) }
}

pub open spec fn table_add(t: RoutingView, id: NodeID, addr: PeerAddr, now: u64) -> RoutingView {
    if id.id@ == t.local {
        t
    } else {
        let idx = bucket_of(t.local, id.id@);
        with_bucket(t, idx, bucket_add(t.buckets[idx], new_entry(id, addr, now)))
    }
}

pub open spec fn table_remove(t: RoutingView, id: NodeID) -> RoutingView {
    let idx = bucket_of(t.local, id.id@);
    let b = t.buckets[idx];
    with_bucket(t, idx, BucketView {
        active: b.active.filter(other_than(id.id@)),
        candidates: b.candidates.filter(other_than(id.id@)),
    })
}

pub open spec fn table_mark_alive(t: RoutingView, id: NodeID, addr: PeerAddr, now: u64) -> RoutingView {
    let idx = bucket_of(t.local, id.id@);
    with_bucket(t, idx, bucket_refresh(t.buckets[idx], new_entry(id, addr, now)))
}

/// Whether the node may be pinged at `now`: never pinged, or not within the cooldown.
pub open spec fn due_for_ping(e: Entry, now: u64) -> bool {
    match e.last_pinged {
        None => true,
        Some(t) => elapsed(now, t) > PING_COOLDOWN_MS,
    }
}

/// `m` is the first of the due entries that were seen least recently.
pub open spec fn oldest_due(s: Seq<Entry>, now: u64, m: int) -> bool {
    &&& 0 <= m < s.len()
    &&& due_for_ping(s[m], now)
    &&& forall|j: int| 0 <= j < s.len() && due_for_ping(#[trigger] s[j], now) ==> s[m].last_seen <= s[j].last_seen
    &&& forall|j: int| 0 <= j < m && due_for_ping(#[trigger] s[j], now) ==> s[m].last_seen < s[j].last_seen
}

pub open spec fn pinged_at(e: Entry, now: u64) -> Entry {
    Entry { id: e.id, addr: e.addr, last_seen: e.last_seen, last_pinged: Some(now) }
}

/// An active node is stale when it was pinged more than the threshold ago and
/// has not been seen since the ping.
pub open spec fn stale_at(e: Entry, now: u64) -> bool {
    match e.last_pinged {
        None => false,
        Some(p) => elapsed(now, p) > STALE_THRESHOLD_MS && e.last_seen < p,
    }
}

/// Walks the active list in order: stale entries go to the end of the
/// candidates while these have room, and are dropped otherwise.
pub open spec fn demote(a: Seq<Entry>, c: Seq<Entry>, now: u64) -> (Seq<Entry>, Seq<Entry>)
    decreases a.len(),
{
    if a.len() == 0 {
        (a, c)
    } else {
        let (a1, c1) = demote(a.drop_last(), c, now);
        let e = a.last();
        if stale_at(e, now) {
            (a1, if c1.len() < K { c1.push(e) } else { c1 })
        } else {
            (a1.push(e), c1)
        }
    }
}

/// Index of the last of the most recently seen entries of a non-empty list.
pub open spec fn freshest(c: Seq<Entry>) -> int
    decreases c.len(),
{
    if c.len() <= 1 {
        0
    } else {
        let j = freshest(c.drop_last());
        if c.last().last_seen >= c[j].last_seen { c.len() - 1 } else { j }
    }
}

/// Moves the freshest candidate to the active list until it is full or no
/// candidate is left.
pub open spec fn promote(a: Seq<Entry>, c: Seq<Entry>) -> (Seq<Entry>, Seq<Entry>)
    decreases c.len(),
{
    if a.len() >= K || c.len() == 0 {
        (a, c)
    } else {
        let m = freshest(c);
        if 0 <= m < c.len() {
            promote(a.push(c[m]), c.remove(m))
        } else {
            (a, c)
        }
    }
}

/// One bucket after eviction at `now`: stale candidates dropped, stale active
/// nodes demoted, then the freshest candidates promoted.
pub open spec fn evict_bucket(b: BucketView, now: u64) -> BucketView {
    let c1 = b.candidates.filter(fresh_at(now));
    let (a2, c2) = demote(b.active, c1, now);
    let (a3, c3) = promote(a2, c2);
    BucketView { active: a3, candidates: c3 }
}

pub open spec fn table_evict(t: RoutingView, now: u64) -> RoutingView {
    RoutingView { local: t.local, buckets: t.buckets.map_values(|b: BucketView| evict_bucket(b, now)) }
}

/// What pinging the bucket of `target` at `now` does: the first of the least
/// recently seen due entries is marked as pinged and returned; with none due,
/// nothing changes.
pub open spec fn ping_step(t: RoutingView, target: Seq<u8>, now: u64, r: Option<(NodeID, PeerAddr)>, after: RoutingView) -> bool {
    let idx = bucket_of(t.local, target);
    let b = t.buckets[idx];
    match r {
        None => after == t && forall|j: int| 0 <= j < b.active.len() ==> !due_for_ping(#[trigger] b.active[j], now),
        Some((id, addr)) => exists|m: int| #[trigger] oldest_due(b.active, now, m)
            && id == b.active[m].id && addr == b.active[m].addr
            && after == with_bucket(t, idx, BucketView {
                active: b.active.update(m, pinged_at(b.active[m], now)),
                candidates: b.candidates,
            }),
    }
}

/// The routing table after seeing each of `ns`, in order, at `now`.
pub open spec fn add_all(t: RoutingView, ns: Seq<(NodeID, PeerAddr)>, now: u64) -> RoutingView
    decreases ns.len(),
{
    if ns.len() == 0 {
        t
    } else {
        table_add(add_all(t, ns.drop_last(), now), ns.last().0, ns.last().1, now)
    }
}

/// The `(id, address)` pairs of a bucket's active list; nothing outside the table.
pub open spec fn active_pairs(t: RoutingView, i: int) -> Seq<(NodeID, PeerAddr)> {
    if 0 <= i < t.buckets.len() {
        t.buckets[i].active.map_values(|e: Entry| (e.id, e.addr))
    } else {
        Seq::empty()
    }
}

/// Active entries of the buckets within `k` of `start`, in the order they
/// are gathered: `start`, then `start - 1`, `start + 1`, `start - 2`, ...
pub open spec fn ring(t: RoutingView, start: int, k: nat) -> Seq<(NodeID, PeerAddr)>
    decreases k,
{
    if k == 0 {
        active_pairs(t, start)
    } else {
        ring(t, start, (k - 1) as nat) + active_pairs(t, start - k) + active_pairs(t, start + k)
    }
}

/// How far gathering goes: until `n` entries are in hand or no bucket is
/// left on either side.
pub open spec fn gather_radius(t: RoutingView, start: int, n: nat, k: nat) -> nat
    decreases 256 - k,
{
    if k >= 256 || ring(t, start, k).len() >= n || (start - k - 1 < 0 && start + k + 1 >= 256) {
        k
    } else {
        gather_radius(t, start, n, k + 1)
    }
}

/// The candidates for the `n` nodes closest to `target`.
pub open spec fn gathered(t: RoutingView, target: Seq<u8>, n: nat) -> Seq<(NodeID, PeerAddr)> {
    let start = bucket_of(t.local, target);
    ring(t, start, gather_radius(t, start, n, 0))
}

/// The XOR distance of `id` to `target` as a 256-bit big-endian number,
/// split into its high and low halves.
pub open spec fn distance_key(target: Seq<u8>, id: Seq<u8>) -> (u128, u128) {
    let d = xor_distance(target, id);
    (u128_of_be(d.subrange(0, 16)), u128_of_be(d.subrange(16, 32)))
}

pub open spec fn key_le(a: (u128, u128), b: (u128, u128)) -> bool {
    a.0 < b.0 || (a.0 == b.0 && a.1 <= b.1)
}

/// Sorted by XOR distance to `target`, nearest first.
pub open spec fn by_distance(target: Seq<u8>, s: Seq<(NodeID, PeerAddr)>) -> bool {
    forall|i: int, j: int| 0 <= i < j < s.len()
        ==> key_le(distance_key(target, #[trigger] s[i].0.id@), distance_key(target, #[trigger] s[j].0.id@))
}

/// What `closest_nodes` answers: the gathered entries, sorted by distance,
/// cut to `n`.
pub open spec fn closest_answer(t: RoutingView, target: Seq<u8>, n: nat, r: Seq<(NodeID, PeerAddr)>) -> bool {
    exists|s: Seq<(NodeID, PeerAddr)>|
        #[trigger] s.to_multiset() == gathered(t, target, n).to_multiset()
        && by_distance(target, s)
        && r == (if s.len() > n { s.take(n as int) } else { s })
}

/// Filtering keeps the order of what it keeps, so it keeps IDs apart, and it
/// keeps only entries that were there.
proof fn lemma_filter_sub(s: Seq<Entry>, p: spec_fn(Entry) -> bool)
    ensures
        s.filter(p).len() <= s.len(),
        forall|i: int| 0 <= i < s.filter(p).len() ==> p(#[trigger] s.filter(p)[i]) && s.contains(s.filter(p)[i]),
        no_dup(s) ==> no_dup(s.filter(p)),
    decreases s.len(),
{
    reveal(Seq::filter);
    if s.len() > 0 {
        let rest = s.drop_last();
        lemma_filter_sub(rest, p);
        let f = s.filter(p);
        let fr = rest.filter(p);
        assert forall|i: int| 0 <= i < f.len() implies p(#[trigger] f[i]) && s.contains(f[i]) by {
            if i < fr.len() {
                assert(f[i] == fr[i]);
                let k = choose|k: int| 0 <= k < rest.len() && rest[k] == fr[i];
                assert(s[k] == f[i]);
            } else {
                assert(f[i] == s.last());
                assert(s[s.len() - 1] == f[i]);
            }
        }
        if no_dup(s) {
            assert forall|i: int, j: int| 0 <= i < j < f.len() implies #[trigger] f[i].id.id@ != #[trigger] f[j].id.id@ by {
                if j < fr.len() {
                    assert(f[i] == fr[i] && f[j] == fr[j]);
                } else {
                    assert(f[j] == s.last());
                    assert(fr[i] == f[i]);
                    let k = choose|k: int| 0 <= k < rest.len() && rest[k] == fr[i];
                    assert(s[k] == rest[k]);
                    assert(s[k].id.id@ != s[s.len() - 1].id.id@);
                }
            }
        }
    }
}

/// After dropping an ID, it is nowhere in the list, and an ID that was listed
/// and is not that one is still listed; the list shrinks when the ID was there.
proof fn lemma_filter_other_than(s: Seq<Entry>, id: Seq<u8>)
    ensures
        !lists_id(s.filter(other_than(id)), id),
        forall|x: Seq<u8>| #[trigger] lists_id(s.filter(other_than(id)), x) <==> (lists_id(s, x) && x != id),
        lists_id(s, id) ==> s.filter(other_than(id)).len() < s.len(),
    decreases s.len(),
{
    reveal(Seq::filter);
    lemma_filter_sub(s, other_than(id));
    let f = s.filter(other_than(id));
    if s.len() > 0 {
        let rest = s.drop_last();
        lemma_filter_other_than(rest, id);
        lemma_filter_sub(rest, other_than(id));
        let fr = rest.filter(other_than(id));
        assert forall|x: Seq<u8>| #[trigger] lists_id(f, x) <==> (lists_id(s, x) && x != id) by {
            if lists_id(f, x) {
                let i = choose|i: int| 0 <= i < f.len() && #[trigger] f[i].id.id@ == x;
                let k = choose|k: int| 0 <= k < s.len() && s[k] == f[i];
                assert(s[k].id.id@ == x);
            }
            if lists_id(s, x) && x != id {
                let k = choose|k: int| 0 <= k < s.len() && #[trigger] s[k].id.id@ == x;
                if k < s.len() - 1 {
                    assert(rest[k].id.id@ == x);
                    assert(lists_id(fr, x));
                    let j = choose|j: int| 0 <= j < fr.len() && #[trigger] fr[j].id.id@ == x;
                    assert(f[j] == fr[j]);
                } else {
                    assert(f[f.len() - 1] == s.last());
                }
            }
        }
        if lists_id(s, id) {
            let k = choose|k: int| 0 <= k < s.len() && #[trigger] s[k].id.id@ == id;
            if k < s.len() - 1 {
                assert(rest[k].id.id@ == id);
            }
        }
    }
}

proof fn lemma_push_new(s: Seq<Entry>, e: Entry)
    requires
        no_dup(s),
        !lists_id(s, e.id.id@),
    ensures
        no_dup(s.push(e)),
        forall|x: Seq<u8>| #[trigger] lists_id(s.push(e), x) <==> (lists_id(s, x) || x == e.id.id@),
{
    let p = s.push(e);
    assert forall|i: int, j: int| 0 <= i < j < p.len() implies #[trigger] p[i].id.id@ != #[trigger] p[j].id.id@ by {
        if j == s.len() {
            assert(p[i] == s[i]);
        } else {
            assert(p[i] == s[i] && p[j] == s[j]);
        }
    }
    assert forall|x: Seq<u8>| #[trigger] lists_id(p, x) <==> (lists_id(s, x) || x == e.id.id@) by {
        if lists_id(p, x) {
            let i = choose|i: int| 0 <= i < p.len() && #[trigger] p[i].id.id@ == x;
            if i < s.len() {
                assert(p[i] == s[i]);
            }
        }
        if lists_id(s, x) {
            let i = choose|i: int| 0 <= i < s.len() && #[trigger] s[i].id.id@ == x;
            assert(p[i] == s[i]);
        }
        if x == e.id.id@ {
            assert(p[s.len() as int] == e);
        }
    }
}

/// Entries of `s` whose IDs all occur in `big` sit where `big`'s entries sit.
pub open spec fn ids_within(s: Seq<Entry>, big: Seq<Entry>) -> bool {
    forall|i: int| 0 <= i < s.len() ==> lists_id(big, #[trigger] s[i].id.id@)
}

proof fn lemma_placed_within(local: Seq<u8>, idx: int, s: Seq<Entry>, big: Seq<Entry>)
    requires
        placed(local, idx, big),
        ids_within(s, big),
    ensures
        placed(local, idx, s),
{
    assert forall|i: int| 0 <= i < s.len() implies bucket_of(local, #[trigger] s[i].id.id@) == idx && s[i].id.id@ != local by {
        assert(lists_id(big, s[i].id.id@));
        let k = choose|k: int| 0 <= k < big.len() && #[trigger] big[k].id.id@ == s[i].id.id@;
        assert(bucket_of(local, big[k].id.id@) == idx);
    }
}

proof fn lemma_filter_within(s: Seq<Entry>, p: spec_fn(Entry) -> bool)
    ensures
        ids_within(s.filter(p), s),
{
    lemma_filter_sub(s, p);
    let f = s.filter(p);
    assert forall|i: int| 0 <= i < f.len() implies lists_id(s, #[trigger] f[i].id.id@) by {
        assert(s.contains(f[i]));
        let k = choose|k: int| 0 <= k < s.len() && s[k] == f[i];
        assert(s[k].id.id@ == f[i].id.id@);
    }
}

/// Seeing a node keeps a bucket well formed.
proof fn lemma_bucket_add_wf(local: Seq<u8>, idx: int, b: BucketView, e: Entry)
    requires
        bucket_wf(local, idx, b),
        bucket_of(local, e.id.id@) == idx,
        e.id.id@ != local,
    ensures
        bucket_wf(local, idx, bucket_add(b, e)),
        bucket_wf(local, idx, bucket_refresh(b, e)),
{
    let id = e.id.id@;
    let fa = b.active.filter(other_than(id));
    let fc = b.candidates.filter(other_than(id));
    lemma_filter_other_than(b.active, id);
    lemma_filter_other_than(b.candidates, id);
    lemma_filter_sub(b.active, other_than(id));
    lemma_filter_sub(b.candidates, other_than(id));
    lemma_filter_within(b.active, other_than(id));
    lemma_filter_within(b.candidates, other_than(id));
    lemma_placed_within(local, idx, fa, b.active);
    lemma_placed_within(local, idx, fc, b.candidates);
    if lists_id(b.active, id) {
        lemma_push_new(fa, e);
        let na = fa.push(e);
        assert(!lists_id(b.candidates, id)) by {
            let k = choose|k: int| 0 <= k < b.active.len() && #[trigger] b.active[k].id.id@ == id;
        }
        assert forall|i: int| 0 <= i < na.len() implies !lists_id(b.candidates, #[trigger] na[i].id.id@) by {
            if i < fa.len() {
                assert(lists_id(b.active, fa[i].id.id@));
                let k = choose|k: int| 0 <= k < b.active.len() && #[trigger] b.active[k].id.id@ == fa[i].id.id@;
                assert(na[i] == fa[i]);
            }
        }
        assert(placed(local, idx, na));
    } else if lists_id(b.candidates, id) {
        lemma_push_new(fc, e);
        let nc = fc.push(e);
        assert forall|i: int| 0 <= i < b.active.len() implies !lists_id(nc, #[trigger] b.active[i].id.id@) by {
            assert(b.active[i].id.id@ != id);
        }
        assert(placed(local, idx, nc));
    } else {
        if b.active.len() < K {
            lemma_push_new(b.active, e);
            let na = b.active.push(e);
            assert forall|i: int| 0 <= i < na.len() implies !lists_id(b.candidates, #[trigger] na[i].id.id@) by {
                if i < b.active.len() {
                    assert(na[i] == b.active[i]);
                }
            }
        } else if b.candidates.len() < K {
            lemma_push_new(b.candidates, e);
        }
    }
}

/// IDs of `s` each occur in `x` or in `y`.
pub open spec fn ids_from(s: Seq<Entry>, x: Seq<Entry>, y: Seq<Entry>) -> bool {
    forall|i: int| 0 <= i < s.len() ==> lists_id(x, #[trigger] s[i].id.id@) || lists_id(y, s[i].id.id@)
}

proof fn lemma_placed_from(local: Seq<u8>, idx: int, s: Seq<Entry>, x: Seq<Entry>, y: Seq<Entry>)
    requires
        placed(local, idx, x),
        placed(local, idx, y),
        ids_from(s, x, y),
    ensures
        placed(local, idx, s),
{
    assert forall|i: int| 0 <= i < s.len() implies bucket_of(local, #[trigger] s[i].id.id@) == idx && s[i].id.id@ != local by {
        let id = s[i].id.id@;
        if lists_id(x, id) {
            let k = choose|k: int| 0 <= k < x.len() && #[trigger] x[k].id.id@ == id;
            assert(bucket_of(local, x[k].id.id@) == idx);
        } else {
            let k = choose|k: int| 0 <= k < y.len() && #[trigger] y[k].id.id@ == id;
            assert(bucket_of(local, y[k].id.id@) == idx);
        }
    }
}

proof fn lemma_drop_last_ids(a: Seq<Entry>)
    requires
        a.len() > 0,
    ensures
        forall|x: Seq<u8>| #[trigger] lists_id(a.drop_last(), x) ==> lists_id(a, x),
        no_dup(a) ==> no_dup(a.drop_last()) && !lists_id(a.drop_last(), a.last().id.id@),
{
    let p = a.drop_last();
    assert forall|x: Seq<u8>| #[trigger] lists_id(p, x) implies lists_id(a, x) by {
        let k = choose|k: int| 0 <= k < p.len() && #[trigger] p[k].id.id@ == x;
        assert(a[k] == p[k]);
    }
    if no_dup(a) {
        assert forall|i: int, j: int| 0 <= i < j < p.len() implies #[trigger] p[i].id.id@ != #[trigger] p[j].id.id@ by {
            assert(a[i] == p[i] && a[j] == p[j]);
        }
        if lists_id(p, a.last().id.id@) {
            let k = choose|k: int| 0 <= k < p.len() && #[trigger] p[k].id.id@ == a.last().id.id@;
            assert(a[k] == p[k]);
            assert(a[k].id.id@ != a[a.len() - 1].id.id@);
        }
    }
}

proof fn lemma_remove_ids(c: Seq<Entry>, m: int)
    requires
        0 <= m < c.len(),
        no_dup(c),
    ensures
        no_dup(c.remove(m)),
        forall|x: Seq<u8>| #[trigger] lists_id(c.remove(m), x) <==> (lists_id(c, x) && x != c[m].id.id@),
{
    let r = c.remove(m);
    assert forall|i: int, j: int| 0 <= i < j < r.len() implies #[trigger] r[i].id.id@ != #[trigger] r[j].id.id@ by {
        let ii = if i < m { i } else { i + 1 };
        let jj = if j < m { j } else { j + 1 };
        assert(r[i] == c[ii] && r[j] == c[jj]);
    }
    assert forall|x: Seq<u8>| #[trigger] lists_id(r, x) <==> (lists_id(c, x) && x != c[m].id.id@) by {
        if lists_id(r, x) {
            let k = choose|k: int| 0 <= k < r.len() && #[trigger] r[k].id.id@ == x;
            let kk = if k < m { k } else { k + 1 };
            assert(r[k] == c[kk]);
        }
        if lists_id(c, x) && x != c[m].id.id@ {
            let k = choose|k: int| 0 <= k < c.len() && #[trigger] c[k].id.id@ == x;
            if k < m {
                assert(r[k] == c[k]);
            } else {
                assert(r[k - 1] == c[k]);
            }
        }
    }
}

proof fn lemma_freshest_range(c: Seq<Entry>)
    requires
        c.len() > 0,
    ensures
        0 <= freshest(c) < c.len(),
    decreases c.len(),
{
    if c.len() > 1 {
        lemma_freshest_range(c.drop_last());
    }
}

proof fn lemma_demote(a: Seq<Entry>, c: Seq<Entry>, now: u64)
    requires
        no_dup(a),
        no_dup(c),
        disjoint(a, c),
        c.len() <= K,
    ensures
        ({
            let (a2, c2) = demote(a, c, now);
            &&& no_dup(a2)
            &&& no_dup(c2)
            &&& disjoint(a2, c2)
            &&& c2.len() <= K
            &&& a2.len() <= a.len()
            &&& ids_from(a2, a, a)
            &&& ids_from(c2, a, c)
        }),
    decreases a.len(),
{
    if a.len() > 0 {
        let ap = a.drop_last();
        let e = a.last();
        lemma_drop_last_ids(a);
        assert(disjoint(ap, c)) by {
            assert forall|i: int| 0 <= i < ap.len() implies !lists_id(c, #[trigger] ap[i].id.id@) by {
                assert(a[i] == ap[i]);
            }
        }
        lemma_demote(ap, c, now);
        let (a1, c1) = demote(ap, c, now);
        assert(!lists_id(c, e.id.id@)) by {
            assert(a[a.len() - 1] == e);
        }
        assert(!lists_id(a1, e.id.id@)) by {
            if lists_id(a1, e.id.id@) {
                let k = choose|k: int| 0 <= k < a1.len() && #[trigger] a1[k].id.id@ == e.id.id@;
                assert(lists_id(ap, a1[k].id.id@));
            }
        }
        assert(!lists_id(c1, e.id.id@)) by {
            if lists_id(c1, e.id.id@) {
                let k = choose|k: int| 0 <= k < c1.len() && #[trigger] c1[k].id.id@ == e.id.id@;
                assert(lists_id(ap, c1[k].id.id@) || lists_id(c, c1[k].id.id@));
            }
        }
        assert(lists_id(a, e.id.id@)) by {
            assert(a[a.len() - 1].id.id@ == e.id.id@);
        }
        if stale_at(e, now) {
            if c1.len() < K {
                lemma_push_new(c1, e);
                let c2 = c1.push(e);
                assert forall|i: int| 0 <= i < a1.len() implies !lists_id(c2, #[trigger] a1[i].id.id@) by {
                    assert(lists_id(ap, a1[i].id.id@));
                }
                assert forall|i: int| 0 <= i < c2.len() implies lists_id(a, #[trigger] c2[i].id.id@) || lists_id(c, c2[i].id.id@) by {
                    if i < c1.len() {
                        assert(c2[i] == c1[i]);
                    }
                }
            }
            assert forall|i: int| 0 <= i < a1.len() implies lists_id(a, #[trigger] a1[i].id.id@) || lists_id(a, a1[i].id.id@) by {
                assert(lists_id(ap, a1[i].id.id@));
            }
        } else {
            lemma_push_new(a1, e);
            let a2 = a1.push(e);
            assert forall|i: int| 0 <= i < a2.len() implies !lists_id(c1, #[trigger] a2[i].id.id@) by {
                if i < a1.len() {
                    assert(a2[i] == a1[i]);
                }
            }
            assert forall|i: int| 0 <= i < a2.len() implies lists_id(a, #[trigger] a2[i].id.id@) || lists_id(a, a2[i].id.id@) by {
                if i < a1.len() {
                    assert(a2[i] == a1[i]);
                    assert(lists_id(ap, a1[i].id.id@));
                }
            }
        }
        assert forall|i: int| 0 <= i < c1.len() implies lists_id(a, #[trigger] c1[i].id.id@) || lists_id(c, c1[i].id.id@) by {
            assert(lists_id(ap, c1[i].id.id@) || lists_id(c, c1[i].id.id@));
        }
    }
}

proof fn lemma_promote(a: Seq<Entry>, c: Seq<Entry>)
    requires
        no_dup(a),
        no_dup(c),
        disjoint(a, c),
        a.len() <= K,
        c.len() <= K,
    ensures
        ({
            let (a3, c3) = promote(a, c);
            &&& no_dup(a3)
            &&& no_dup(c3)
            &&& disjoint(a3, c3)
            &&& a3.len() <= K
            &&& c3.len() <= K
            &&& ids_from(a3, a, c)
            &&& ids_from(c3, a, c)
        }),
    decreases c.len(),
{
    if a.len() >= K || c.len() == 0 {
        assert forall|i: int| 0 <= i < a.len() implies lists_id(a, #[trigger] a[i].id.id@) || lists_id(c, a[i].id.id@) by {
            assert(a[i].id.id@ == a[i].id.id@);
        }
        assert forall|i: int| 0 <= i < c.len() implies lists_id(a, #[trigger] c[i].id.id@) || lists_id(c, c[i].id.id@) by {
            assert(c[i].id.id@ == c[i].id.id@);
        }
    } else {
        lemma_freshest_range(c);
        let m = freshest(c);
        let e = c[m];
        let ap = a.push(e);
        let cp = c.remove(m);
        assert(!lists_id(a, e.id.id@)) by {
            if lists_id(a, e.id.id@) {
                let k = choose|k: int| 0 <= k < a.len() && #[trigger] a[k].id.id@ == e.id.id@;
            }
        }
        lemma_push_new(a, e);
        lemma_remove_ids(c, m);
        assert forall|i: int| 0 <= i < ap.len() implies !lists_id(cp, #[trigger] ap[i].id.id@) by {
            if i < a.len() {
                assert(ap[i] == a[i]);
            }
        }
        lemma_promote(ap, cp);
        let (a3, c3) = promote(ap, cp);
        assert(lists_id(c, e.id.id@)) by {
            assert(c[m].id.id@ == e.id.id@);
        }
        assert forall|i: int| 0 <= i < a3.len() implies lists_id(a, #[trigger] a3[i].id.id@) || lists_id(c, a3[i].id.id@) by {
            assert(lists_id(ap, a3[i].id.id@) || lists_id(cp, a3[i].id.id@));
        }
        assert forall|i: int| 0 <= i < c3.len() implies lists_id(a, #[trigger] c3[i].id.id@) || lists_id(c, c3[i].id.id@) by {
            assert(lists_id(ap, c3[i].id.id@) || lists_id(cp, c3[i].id.id@));
        }
    }
}

/// Eviction keeps a bucket well formed.
proof fn lemma_evict_bucket_wf(local: Seq<u8>, idx: int, b: BucketView, now: u64)
    requires
        bucket_wf(local, idx, b),
    ensures
        bucket_wf(local, idx, evict_bucket(b, now)),
{
    let c1 = b.candidates.filter(fresh_at(now));
    lemma_filter_sub(b.candidates, fresh_at(now));
    lemma_filter_within(b.candidates, fresh_at(now));
    assert forall|i: int| 0 <= i < b.active.len() implies !lists_id(c1, #[trigger] b.active[i].id.id@) by {
        if lists_id(c1, b.active[i].id.id@) {
            let k = choose|k: int| 0 <= k < c1.len() && #[trigger] c1[k].id.id@ == b.active[i].id.id@;
            assert(lists_id(b.candidates, c1[k].id.id@));
        }
    }
    lemma_placed_within(local, idx, c1, b.candidates);
    lemma_demote(b.active, c1, now);
    let (a2, c2) = demote(b.active, c1, now);
    lemma_placed_from(local, idx, a2, b.active, b.active);
    lemma_placed_from(local, idx, c2, b.active, c1);
    lemma_promote(a2, c2);
    let (a3, c3) = promote(a2, c2);
    lemma_placed_from(local, idx, a3, a2, c2);
    lemma_placed_from(local, idx, c3, a2, c2);
}

/// Marking an entry as pinged keeps a bucket well formed.
proof fn lemma_ping_wf(local: Seq<u8>, idx: int, b: BucketView, m: int, now: u64)
    requires
        bucket_wf(local, idx, b),
        0 <= m < b.active.len(),
    ensures
        bucket_wf(local, idx, BucketView {
            active: b.active.update(m, pinged_at(b.active[m], now)),
            candidates: b.candidates,
        }),
{
    let na = b.active.update(m, pinged_at(b.active[m], now));
    assert forall|i: int| 0 <= i < na.len() implies na[i].id.id@ == b.active[i].id.id@ by {}
    assert forall|i: int, j: int| 0 <= i < j < na.len() implies #[trigger] na[i].id.id@ != #[trigger] na[j].id.id@ by {
        assert(b.active[i].id.id@ != b.active[j].id.id@);
    }
    assert forall|i: int| 0 <= i < na.len() implies !lists_id(b.candidates, #[trigger] na[i].id.id@) by {
        assert(na[i].id.id@ == b.active[i].id.id@);
    }
    assert forall|i: int| 0 <= i < na.len() implies bucket_of(local, #[trigger] na[i].id.id@) == idx && na[i].id.id@ != local by {
        assert(na[i].id.id@ == b.active[i].id.id@);
    }
}

/// Every ID has a bucket in the table.
pub proof fn lemma_bucket_range(local: Seq<u8>, id: Seq<u8>)
    ensures
        0 <= bucket_of(local, id) < 256,
{
    lemma_common_prefix_range(local, id);
}

/// A node that is seen is listed afterwards in its bucket, unless it is the
/// local node or both lists of its bucket are full without it.
pub proof fn lemma_add_lists(t: RoutingView, id: NodeID, addr: PeerAddr, now: u64)
    requires
        table_wf(t),
    ensures
        ({
            let idx = bucket_of(t.local, id.id@);
            let b = t.buckets[idx];
            let after = table_add(t, id, addr, now).buckets[idx];
            (id.id@ != t.local && (lists_id(b.active, id.id@) || lists_id(b.candidates, id.id@)
                || b.active.len() < K || b.candidates.len() < K))
                ==> (lists_id(after.active, id.id@) || lists_id(after.candidates, id.id@))
        }),
{
    let idx = bucket_of(t.local, id.id@);
    lemma_bucket_range(t.local, id.id@);
    let b = t.buckets[idx];
    let e = new_entry(id, addr, now);
    if id.id@ != t.local {
        let nb = bucket_add(b, e);
        if lists_id(b.active, id.id@) {
            let na = b.active.filter(other_than(id.id@)).push(e);
            assert(na[na.len() - 1].id.id@ == id.id@);
        } else if lists_id(b.candidates, id.id@) {
            let nc = b.candidates.filter(other_than(id.id@)).push(e);
            assert(nc[nc.len() - 1].id.id@ == id.id@);
        } else if b.active.len() < K {
            assert(nb.active[b.active.len() as int].id.id@ == id.id@);
        } else if b.candidates.len() < K {
            assert(nb.candidates[b.candidates.len() as int].id.id@ == id.id@);
        }
    }
}

/// A removed node is listed nowhere in its bucket, and the other buckets are untouched.
pub proof fn lemma_remove_forgets(t: RoutingView, id: NodeID)
    requires
        table_wf(t),
    ensures
        ({
            let idx = bucket_of(t.local, id.id@);
            let after = table_remove(t, id);
            &&& !lists_id(after.buckets[idx].active, id.id@)
            &&& !lists_id(after.buckets[idx].candidates, id.id@)
            &&& forall|i: int| 0 <= i < 256 && i != idx ==> after.buckets[i] == t.buckets[i]
        }),
{
    let idx = bucket_of(t.local, id.id@);
    lemma_bucket_range(t.local, id.id@);
    lemma_filter_other_than(t.buckets[idx].active, id.id@);
    lemma_filter_other_than(t.buckets[idx].candidates, id.id@);
}

pub struct Bucket {
    active: Vec<Entry>,
    candidates: Vec<Entry>,
}

impl View for Bucket {
    type V = BucketView;

    closed spec fn view(&self) -> BucketView {
        BucketView { active: self.active@, candidates: self.candidates@ }
    }
}

/// Whether an ID occurs in the list.
fn holds(list: &Vec<Entry>, id: &NodeID) -> (r: bool)
    ensures
        r == lists_id(list@, id.id@),
{
    let mut i: usize = 0;
    while i < list.len()
        invariant
            i <= list@.len(),
            forall|k: int| 0 <= k < i ==> list@[k].id.id@ != id.id@,
        decreases list@.len() - i,
    {
        if list[i].id.same_as(id) {
            return true;
        }
        i = i + 1;
    }
    false
}

/// The list without the entries of this ID.
fn without(list: &Vec<Entry>, id: &NodeID) -> (r: Vec<Entry>)
    ensures
        r@ == list@.filter(other_than(id.id@)),
{
    let mut out: Vec<Entry> = Vec::new();
    let mut i: usize = 0;
    while i < list.len()
        invariant
            i <= list@.len(),
            out@ == list@.take(i as int).filter(other_than(id.id@)),
        decreases list@.len() - i,
    {
        proof {
            reveal(Seq::filter);
            assert(list@.take(i + 1).drop_last() =~= list@.take(i as int));
        }
        let e = list[i];
        if !e.id.same_as(id) {
            out.push(e);
        }
        i = i + 1;
    }
    assert(list@.take(list@.len() as int) =~= list@);
    out
}

/// Time from `then` to `now`, zero when `then` is later.
fn age(now: u64, then: u64) -> (r: u64)
    ensures
        r == elapsed(now, then),
{
    if now > then { now - then } else { 0 }
}

fn is_due(e: &Entry, now: u64) -> (r: bool)
    ensures
        r == due_for_ping(*e, now),
{
    match e.last_pinged {
        None => true,
        Some(t) => age(now, t) > PING_COOLDOWN_MS,
    }
}

fn is_stale(e: &Entry, now: u64) -> (r: bool)
    ensures
        r == stale_at(*e, now),
{
    match e.last_pinged {
        None => false,
        Some(p) => age(now, p) > STALE_THRESHOLD_MS && e.last_seen < p,
    }
}

fn freshest_index(c: &Vec<Entry>) -> (r: usize)
    requires
        c@.len() > 0,
    ensures
        r == freshest(c@),
        r < c@.len(),
{
    let mut best: usize = 0;
    let mut i: usize = 1;
    while i < c.len()
        invariant
            1 <= i <= c@.len(),
            best < i,
            best as int == freshest(c@.take(i as int)),
        decreases c@.len() - i,
    {
        proof {
            assert(c@.take(i + 1).drop_last() =~= c@.take(i as int));
        }
        if c[i].last_seen >= c[best].last_seen {
            best = i;
        }
        i = i + 1;
    }
    assert(c@.take(c@.len() as int) =~= c@);
    best
}

pub(crate) fn distance_key_of(target: &NodeID, id: &NodeID) -> (r: (u128, u128))
    ensures
        r == distance_key(target.id@, id.id@),
{
    let d = target.distance(id);
    (read_u128(d.as_slice(), 0), read_u128(d.as_slice(), 16))
}

pub(crate) fn key_lt(a: (u128, u128), b: (u128, u128)) -> (r: bool)
    ensures
        r == !key_le(b, a),
{
    a.0 < b.0 || (a.0 == b.0 && a.1 < b.1)
}

/// Appends the `(id, address)` pairs of a bucket's active list.
fn push_actives(out: &mut Vec<(NodeID, PeerAddr)>, b: &Bucket)
    ensures
        final(out)@ == old(out)@ + b@.active.map_values(|e: Entry| (e.id, e.addr)),
{
    let ghost start = out@;
    let mut i: usize = 0;
    while i < b.active.len()
        invariant
            i <= b@.active.len(),
            out@ == start + b@.active.take(i as int).map_values(|e: Entry| (e.id, e.addr)),
        decreases b@.active.len() - i,
    {
        let e = b.active[i];
        out.push((e.id, e.addr));
        proof {
            assert(b@.active.take(i + 1).map_values(|e: Entry| (e.id, e.addr))
                =~= b@.active.take(i as int).map_values(|e: Entry| (e.id, e.addr)).push((e.id, e.addr)));
        }
        i = i + 1;
    }
    assert(b@.active.take(b@.active.len() as int) =~= b@.active);
}

/// A stable insertion sort by distance to `target`.
pub(crate) fn sort_by_distance(target: &NodeID, v: Vec<(NodeID, PeerAddr)>) -> (r: Vec<(NodeID, PeerAddr)>)
    ensures
        r@.to_multiset() == v@.to_multiset(),
        by_distance(target.id@, r@),
{
    broadcast use vstd::seq_lib::group_to_multiset_ensures;
    let mut out: Vec<(NodeID, PeerAddr)> = Vec::new();
    let mut i: usize = 0;
    while i < v.len()
        invariant
            i <= v@.len(),
            out@.to_multiset() == v@.take(i as int).to_multiset(),
            by_distance(target.id@, out@),
        decreases v@.len() - i,
    {
        let x = v[i];
        let kx = distance_key_of(target, &x.0);
        let mut p: usize = 0;
        while p < out.len()
            invariant
                p <= out@.len(),
                forall|j: int| 0 <= j < p ==> key_le(distance_key(target.id@, #[trigger] out@[j].0.id@), kx),
            ensures
                p <= out@.len(),
                forall|j: int| 0 <= j < p ==> key_le(distance_key(target.id@, #[trigger] out@[j].0.id@), kx),
                p < out@.len() ==> !key_le(distance_key(target.id@, out@[p as int].0.id@), kx),
            decreases out@.len() - p,
        {
            let kp = distance_key_of(target, &out[p].0);
            if key_lt(kx, kp) {
                break;
            }
            p = p + 1;
        }
        let ghost before = out@;
        proof {
            if p < before.len() {
                assert(!key_le(distance_key(target.id@, before[p as int].0.id@), kx));
            }
        }
        out.insert(p, x);
        proof {
            assert(out@.to_multiset() == before.insert(p as int, x).to_multiset());
            vstd::seq_lib::to_multiset_insert(before, p as int, x);
            assert(before.to_multiset() == v@.take(i as int).to_multiset());
            assert(v@.take(i + 1) =~= v@.take(i as int).push(x));
            vstd::seq_lib::to_multiset_build(v@.take(i as int), x);
            assert(v@.take(i + 1).to_multiset() == v@.take(i as int).push(x).to_multiset());
            assert(out@.to_multiset() =~= v@.take(i + 1).to_multiset());
            assert forall|a: int, b: int| 0 <= a < b < out@.len() implies key_le(
                distance_key(target.id@, #[trigger] out@[a].0.id@), distance_key(target.id@, #[trigger] out@[b].0.id@)) by {
                if b < p {
                    assert(out@[a] == before[a] && out@[b] == before[b]);
                } else if b == p {
                    assert(out@[a] == before[a]);
                } else if a == p {
                    assert(out@[b] == before[b - 1]);
                    if p < b - 1 {
                        assert(key_le(distance_key(target.id@, before[p as int].0.id@), distance_key(target.id@, before[b - 1].0.id@)));
                    }
                } else if a < p {
                    assert(out@[a] == before[a] && out@[b] == before[b - 1]);
                } else {
                    assert(out@[a] == before[a - 1] && out@[b] == before[b - 1]);
                }
            }
        }
        i = i + 1;
    }
    assert(v@.take(v@.len() as int) =~= v@);
    out
}

impl Bucket {
    fn new() -> (r: Self)
        ensures
            r@.active.len() == 0,
            r@.candidates.len() == 0,
    {
        Bucket { active: Vec::new(), candidates: Vec::new() }
    }

    fn add(&mut self, e: Entry)
        ensures
            final(self)@ == bucket_add(old(self)@, e),
    {
        let id = e.id;
        if holds(&self.active, &id) {
            let mut kept = without(&self.active, &id);
            kept.push(e);
            self.active = kept;
        } else if holds(&self.candidates, &id) {
            let mut kept = without(&self.candidates, &id);
            kept.push(e);
            self.candidates = kept;
        } else if self.active.len() < K {
            self.active.push(e);
        } else if self.candidates.len() < K {
            self.candidates.push(e);
        }
    }

    fn refresh(&mut self, e: Entry)
        ensures
            final(self)@ == bucket_refresh(old(self)@, e),
    {
        let id = e.id;
        if holds(&self.active, &id) {
            let mut kept = without(&self.active, &id);
            kept.push(e);
            self.active = kept;
        } else if holds(&self.candidates, &id) {
            let mut kept = without(&self.candidates, &id);
            kept.push(e);
            self.candidates = kept;
        }
    }

    fn ping_oldest(&mut self, now: u64) -> (r: Option<(NodeID, PeerAddr)>)
        ensures
            match r {
                None => final(self)@ == old(self)@
                    && forall|j: int| 0 <= j < old(self)@.active.len() ==> !due_for_ping(#[trigger] old(self)@.active[j], now),
                Some((id, addr)) => exists|m: int| #[trigger] oldest_due(old(self)@.active, now, m)
                    && id == old(self)@.active[m].id && addr == old(self)@.active[m].addr
                    && final(self)@ == (BucketView {
                        active: old(self)@.active.update(m, pinged_at(old(self)@.active[m], now)),
                        candidates: old(self)@.candidates,
                    }),
            },
    {
        let ghost a = self.active@;
        let ghost b0 = self@;
        let mut best: Option<usize> = None;
        let mut i: usize = 0;
        while i < self.active.len()
            invariant
                a == self.active@,
                b0 == self@,
                i <= a.len(),
                best matches None ==> forall|j: int| 0 <= j < i ==> !due_for_ping(#[trigger] a[j], now),
                best matches Some(m) ==> m < i && oldest_due(a.take(i as int), now, m as int),
            decreases a.len() - i,
        {
            let e = self.active[i];
            if is_due(&e, now) {
                match best {
                    None => {
                        best = Some(i);
                    },
                    Some(m) => {
                        if e.last_seen < self.active[m].last_seen {
                            best = Some(i);
                        }
                    },
                }
            }
            proof {
                let t = a.take(i + 1);
                match best {
                    None => {},
                    Some(m) => {
                        assert forall|j: int| 0 <= j < t.len() && due_for_ping(#[trigger] t[j], now) implies t[m as int].last_seen <= t[j].last_seen by {
                            assert(t[j] == a[j]);
                            if j < i {
                                assert(a.take(i as int)[j] == a[j]);
                            }
                        }
                        assert forall|j: int| 0 <= j < m && due_for_ping(#[trigger] t[j], now) implies t[m as int].last_seen < t[j].last_seen by {
                            assert(t[j] == a[j]);
                            assert(a.take(i as int)[j] == a[j]);
                        }
                        assert(oldest_due(t, now, m as int));
                    },
                }
            }
            i = i + 1;
        }
        match best {
            None => {
                None
            },
            Some(m) => {
                assert(a.take(a.len() as int) =~= a);
                let mut e = self.active[m];
                e.last_pinged = Some(now);
                self.active.set(m, e);
                assert(oldest_due(a, now, m as int));
                assert(self.active@ =~= a.update(m as int, pinged_at(a[m as int], now)));
                assert(self@ == (BucketView {
                    active: old(self)@.active.update(m as int, pinged_at(old(self)@.active[m as int], now)),
                    candidates: old(self)@.candidates,
                }));
                Some((e.id, e.addr))
            },
        }
    }

    fn evict(&mut self, now: u64)
        ensures
            final(self)@ == evict_bucket(old(self)@, now),
    {
        let ghost b = self@;
        let mut cands: Vec<Entry> = Vec::new();
        let mut i: usize = 0;
        while i < self.candidates.len()
            invariant
                b == self@,
                i <= b.candidates.len(),
                cands@ == b.candidates.take(i as int).filter(fresh_at(now)),
            decreases b.candidates.len() - i,
        {
            proof {
                reveal(Seq::filter);
                assert(b.candidates.take(i + 1).drop_last() =~= b.candidates.take(i as int));
            }
            let e = self.candidates[i];
            if age(now, e.last_seen) < STALE_THRESHOLD_MS {
                cands.push(e);
            }
            i = i + 1;
        }
        assert(b.candidates.take(b.candidates.len() as int) =~= b.candidates);
        let ghost c1 = cands@;
        let mut kept: Vec<Entry> = Vec::new();
        i = 0;
        while i < self.active.len()
            invariant
                b == self@,
                i <= b.active.len(),
                (kept@, cands@) == demote(b.active.take(i as int), c1, now),
            decreases b.active.len() - i,
        {
            proof {
                assert(b.active.take(i + 1).drop_last() =~= b.active.take(i as int));
            }
            let e = self.active[i];
            if is_stale(&e, now) {
                if cands.len() < K {
                    cands.push(e);
                }
            } else {
                kept.push(e);
            }
            i = i + 1;
        }
        assert(b.active.take(b.active.len() as int) =~= b.active);
        let ghost a2 = kept@;
        let ghost c2 = cands@;
        while kept.len() < K && cands.len() > 0
            invariant
                promote(kept@, cands@) == promote(a2, c2),
            decreases cands@.len(),
        {
            let m = freshest_index(&cands);
            let e = cands.remove(m);
            kept.push(e);
        }
        self.active = kept;
        self.candidates = cands;
    }

    fn remove_id(&mut self, id: &NodeID)
        ensures
            final(self)@ == (BucketView {
                active: old(self)@.active.filter(other_than(id.id@)),
                candidates: old(self)@.candidates.filter(other_than(id.id@)),
            }),
    {
        self.active = without(&self.active, id);
        self.candidates = without(&self.candidates, id);
    }
}

pub struct RoutingTable {
    local_id: NodeID,
    buckets: Vec<Bucket>,
}

impl View for RoutingTable {
    type V = RoutingView;

    closed spec fn view(&self) -> RoutingView {
        RoutingView { local: self.local_id.id@, buckets: self.buckets@.map_values(|b: Bucket| b@) }
    }
}

impl RoutingTable {
    pub open spec fn wf(&self) -> bool {
        table_wf(self@)
    }

    pub fn new(local_id: NodeID) -> (r: Self)
        ensures
            r.wf(),
            r@.local == local_id.id@,
            forall|i: int| 0 <= i < 256 ==> (#[trigger] r@.buckets[i]).active.len() == 0
                && r@.buckets[i].candidates.len() == 0,
    {
        let mut buckets: Vec<Bucket> = Vec::new();
        let mut i: usize = 0;
        while i < 256
            invariant
                i <= 256,
                buckets@.len() == i,
                forall|k: int| 0 <= k < i ==> (#[trigger] buckets@[k])@.active.len() == 0
                    && buckets@[k]@.candidates.len() == 0,
            decreases 256 - i,
        {
            buckets.push(Bucket::new());
            i = i + 1;
        }
        let r = RoutingTable { local_id, buckets };
        assert forall|k: int| 0 <= k < 256 implies #[trigger] bucket_wf(r@.local, k, r@.buckets[k]) by {
            assert(r@.buckets[k] == r.buckets@[k]@);
        }
        r
    }

    fn bucket(&self, node: &NodeID) -> (r: usize)
        ensures
            r == bucket_of(self@.local, node.id@),
            r < 256,
    {
        match self.local_id.leading_zero_bits(node) {
            Some(n) => n,
            None => 255,
        }
    }

    proof fn lemma_update_view(old_t: RoutingTable, new_t: RoutingTable, idx: int)
        requires
            0 <= idx < old_t.buckets@.len(),
            new_t.local_id == old_t.local_id,
            new_t.buckets@ == old_t.buckets@.update(idx, new_t.buckets@[idx]),
        ensures
            new_t@ == with_bucket(old_t@, idx, new_t.buckets@[idx]@),
    {
        assert(new_t@.buckets =~= old_t@.buckets.update(idx, new_t.buckets@[idx]@));
    }

    proof fn lemma_with_bucket_wf(t: RoutingView, idx: int, b: BucketView)
        requires
            table_wf(t),
            0 <= idx < 256,
            bucket_wf(t.local, idx, b),
        ensures
            table_wf(with_bucket(t, idx, b)),
    {
        let n = with_bucket(t, idx, b);
        assert forall|i: int| 0 <= i < 256 implies #[trigger] bucket_wf(n.local, i, n.buckets[i]) by {
            if i != idx {
                assert(bucket_wf(t.local, i, t.buckets[i]));
            }
        }
    }

    /// Records that `node` was seen at `now`.
    pub fn add_node_at(&mut self, node: NodeID, addr: PeerAddr, now: u64)
        requires
            old(self).wf(),
        ensures
            final(self).wf(),
            final(self)@ == table_add(old(self)@, node, addr, now),
    {
        if node.same_as(&self.local_id) {
            return;
        }
        let idx = self.bucket(&node);
        let ghost before = *self;
        proof {
            assert(bucket_wf(self@.local, idx as int, self@.buckets[idx as int]));
            lemma_bucket_add_wf(self@.local, idx as int, self@.buckets[idx as int], new_entry(node, addr, now));
        }
        self.buckets[idx].add(Entry { id: node, addr, last_seen: now, last_pinged: None });
        proof {
            Self::lemma_update_view(before, *self, idx as int);
            Self::lemma_with_bucket_wf(before@, idx as int, self.buckets@[idx as int]@);
        }
    }

    /// Records that `node` was seen now, by the wall clock.
    pub fn add_node(&mut self, node: NodeID, addr: PeerAddr)
        requires
            old(self).wf(),
        ensures
            final(self).wf(),
            exists|now: u64| final(self)@ == table_add(old(self)@, node, addr, now),
    {
        let now = now_millis();
        self.add_node_at(node, addr, now);
    }

    pub fn remove_node(&mut self, node: &NodeID)
        requires
            old(self).wf(),
        ensures
            final(self).wf(),
            final(self)@ == table_remove(old(self)@, *node),
    {
        let idx = self.bucket(node);
        let ghost before = *self;
        proof {
            let b = self@.buckets[idx as int];
            assert(bucket_wf(self@.local, idx as int, b));
            lemma_filter_sub(b.active, other_than(node.id@));
            lemma_filter_sub(b.candidates, other_than(node.id@));
            lemma_filter_within(b.active, other_than(node.id@));
            lemma_filter_within(b.candidates, other_than(node.id@));
            lemma_filter_other_than(b.active, node.id@);
            lemma_filter_other_than(b.candidates, node.id@);
            let fa = b.active.filter(other_than(node.id@));
            let fc = b.candidates.filter(other_than(node.id@));
            lemma_placed_within(self@.local, idx as int, fa, b.active);
            lemma_placed_within(self@.local, idx as int, fc, b.candidates);
            assert forall|i: int| 0 <= i < fa.len() implies !lists_id(fc, #[trigger] fa[i].id.id@) by {
                assert(lists_id(b.active, fa[i].id.id@));
                let k = choose|k: int| 0 <= k < b.active.len() && #[trigger] b.active[k].id.id@ == fa[i].id.id@;
            }
        }
        self.buckets[idx].remove_id(node);
        proof {
            Self::lemma_update_view(before, *self, idx as int);
            Self::lemma_with_bucket_wf(before@, idx as int, self.buckets@[idx as int]@);
        }
    }

    /// Records a response from `node` at `now`, if the table holds it.
    pub fn mark_alive_at(&mut self, node: &NodeID, addr: PeerAddr, now: u64)
        requires
            old(self).wf(),
        ensures
            final(self).wf(),
            final(self)@ == table_mark_alive(old(self)@, *node, addr, now),
    {
        let idx = self.bucket(node);
        let ghost before = *self;
        proof {
            let b = self@.buckets[idx as int];
            assert(bucket_wf(self@.local, idx as int, b));
            if node.id@ == self@.local {
                // the local ID is in no list, so nothing changes
                assert(!lists_id(b.active, node.id@)) by {
                    if lists_id(b.active, node.id@) {
                        let k = choose|k: int| 0 <= k < b.active.len() && #[trigger] b.active[k].id.id@ == node.id@;
                    }
                }
                assert(!lists_id(b.candidates, node.id@)) by {
                    if lists_id(b.candidates, node.id@) {
                        let k = choose|k: int| 0 <= k < b.candidates.len() && #[trigger] b.candidates[k].id.id@ == node.id@;
                    }
                }
            } else {
                lemma_bucket_add_wf(self@.local, idx as int, b, new_entry(*node, addr, now));
            }
        }
        self.buckets[idx].refresh(Entry { id: *node, addr, last_seen: now, last_pinged: None });
        proof {
            Self::lemma_update_view(before, *self, idx as int);
            Self::lemma_with_bucket_wf(before@, idx as int, self.buckets@[idx as int]@);
        }
    }

    /// Records a response from `node` now, by the wall clock.
    pub fn mark_alive(&mut self, node: &NodeID, addr: PeerAddr)
        requires
            old(self).wf(),
        ensures
            final(self).wf(),
            exists|now: u64| final(self)@ == table_mark_alive(old(self)@, *node, addr, now),
    {
        let now = now_millis();
        self.mark_alive_at(node, addr, now);
    }

    /// Marks as pinged, and returns, the least recently seen active node of
    /// the bucket of `target` that was not pinged within the cooldown.
    pub fn needs_ping_at(&mut self, target: &NodeID, now: u64) -> (r: Option<(NodeID, PeerAddr)>)
        requires
            old(self).wf(),
        ensures
            final(self).wf(),
            ping_step(old(self)@, target.id@, now, r, final(self)@),
    {
        let idx = self.bucket(target);
        let ghost before = *self;
        let r = self.buckets[idx].ping_oldest(now);
        proof {
            Self::lemma_update_view(before, *self, idx as int);
            let b = before@.buckets[idx as int];
            assert(bucket_wf(before@.local, idx as int, b));
            match r {
                None => {
                    assert(self@ =~= before@) by {
                        assert(self@.buckets =~= before@.buckets);
                    }
                },
                Some((id, addr)) => {
                    let m = choose|m: int| #[trigger] oldest_due(b.active, now, m)
                        && id == b.active[m].id && addr == b.active[m].addr
                        && self.buckets@[idx as int]@ == (BucketView {
                            active: b.active.update(m, pinged_at(b.active[m], now)),
                            candidates: b.candidates,
                        });
                    lemma_ping_wf(before@.local, idx as int, b, m, now);
                    Self::lemma_with_bucket_wf(before@, idx as int, self.buckets@[idx as int]@);
                },
            }
        }
        r
    }

    /// `needs_ping_at` by the wall clock.
    pub fn needs_ping(&mut self, target: &NodeID) -> (r: Option<(NodeID, PeerAddr)>)
        requires
            old(self).wf(),
        ensures
            final(self).wf(),
            exists|now: u64| ping_step(old(self)@, target.id@, now, r, final(self)@),
    {
        let now = now_millis();
        self.needs_ping_at(target, now)
    }

    /// In every bucket: drops stale candidates, demotes stale active nodes,
    /// and promotes the freshest candidates into free active slots.
    pub fn evict_stale_at(&mut self, now: u64)
        requires
            old(self).wf(),
        ensures
            final(self).wf(),
            final(self)@ == table_evict(old(self)@, now),
    {
        let ghost start = self@;
        let mut idx: usize = 0;
        while idx < 256
            invariant
                idx <= 256,
                self.wf(),
                self@.local == start.local,
                self@.buckets.len() == 256,
                self.buckets@.len() == 256,
                forall|i: int| 0 <= i < idx ==> #[trigger] self@.buckets[i] == evict_bucket(start.buckets[i], now),
                forall|i: int| idx <= i < 256 ==> #[trigger] self@.buckets[i] == start.buckets[i],
            decreases 256 - idx,
        {
            let ghost before = *self;
            proof {
                assert(bucket_wf(self@.local, idx as int, self@.buckets[idx as int]));
                lemma_evict_bucket_wf(self@.local, idx as int, self@.buckets[idx as int], now);
            }
            self.buckets[idx].evict(now);
            proof {
                Self::lemma_update_view(before, *self, idx as int);
                Self::lemma_with_bucket_wf(before@, idx as int, self.buckets@[idx as int]@);
            }
            idx = idx + 1;
        }
        assert(self@.buckets =~= start.buckets.map_values(|b: BucketView| evict_bucket(b, now)));
    }

    /// `evict_stale_at` by the wall clock.
    pub fn evict_stale(&mut self)
        requires
            old(self).wf(),
        ensures
            final(self).wf(),
            exists|now: u64| final(self)@ == table_evict(old(self)@, now),
    {
        let now = now_millis();
        self.evict_stale_at(now);
    }

    /// Up to `n` known nodes nearest to `target` by XOR distance: the active
    /// entries of the target's bucket and of the buckets around it, nearest first.
    pub fn closest_nodes(&self, target: &NodeID, n: usize) -> (r: Vec<(NodeID, PeerAddr)>)
        requires
            self.wf(),
        ensures
            closest_answer(self@, target.id@, n as nat, r@),
    {
        let ghost t = self@;
        let start = self.bucket(target);
        let mut out: Vec<(NodeID, PeerAddr)> = Vec::new();
        proof {
            assert(self.buckets@[start as int]@ == t.buckets[start as int]);
        }
        push_actives(&mut out, &self.buckets[start]);
        assert(out@ =~= ring(t, start as int, 0));
        let mut k: usize = 0;
        while (k < start || start + k + 1 < 256) && out.len() < n
            invariant
                t == self@,
                self.buckets@.len() == 256,
                start < 256,
                k < 256,
                out@ == ring(t, start as int, k as nat),
                gather_radius(t, start as int, n as nat, 0) == gather_radius(t, start as int, n as nat, k as nat),
            decreases 256 - k,
        {
            let ghost prev = out@;
            k = k + 1;
            if k <= start {
                proof {
                    assert(self.buckets@[start - k]@ == t.buckets[start - k]);
                }
                push_actives(&mut out, &self.buckets[start - k]);
            }
            let ghost mid = out@;
            assert(mid == prev + active_pairs(t, start - k));
            if start + k < 256 {
                proof {
                    assert(self.buckets@[(start + k) as int]@ == t.buckets[start + k]);
                }
                push_actives(&mut out, &self.buckets[start + k]);
            }
            assert(out@ =~= ring(t, start as int, k as nat));
        }
        let ghost g = out@;
        assert(g == gathered(t, target.id@, n as nat));
        let mut sorted = sort_by_distance(target, out);
        let ghost s = sorted@;
        if sorted.len() > n {
            sorted.truncate(n);
            assert(sorted@ =~= s.take(n as int));
        }
        assert(s.to_multiset() == g.to_multiset() && by_distance(target.id@, s)
            && sorted@ == (if s.len() > n { s.take(n as int) } else { s }));
        sorted
    }

    /// Records each of `nodes`, in order, as seen at `now`.
    pub fn add_nodes_at(&mut self, nodes: &Vec<(NodeID, PeerAddr)>, now: u64)
        requires
            old(self).wf(),
        ensures
            final(self).wf(),
            final(self)@ == add_all(old(self)@, nodes@, now),
    {
        let ghost t0 = self@;
        let mut i: usize = 0;
        while i < nodes.len()
            invariant
                i <= nodes@.len(),
                self.wf(),
                self@ == add_all(t0, nodes@.take(i as int), now),
            decreases nodes@.len() - i,
        {
            let (id, addr) = nodes[i];
            self.add_node_at(id, addr, now);
            proof {
                assert(nodes@.take(i + 1).drop_last() =~= nodes@.take(i as int));
            }
            i = i + 1;
        }
        assert(nodes@.take(nodes@.len() as int) =~= nodes@);
    }
}

/// One operation on the routing table, as its mathematical effect: seeing a
/// node, removing one, marking one alive, pinging the bucket of a target (with
/// what the ping step returned), or evicting stale entries.
pub enum RoutingOp {
    Add { id: NodeID, addr: PeerAddr, now: u64 },
    Remove { id: NodeID },
    MarkAlive { id: NodeID, addr: PeerAddr, now: u64 },
    Ping { target: Seq<u8>, now: u64, picked: Option<(NodeID, PeerAddr)> },
    Evict { now: u64 },
}

/// `t2` is what operation `op` makes of `t`, as `add_node_at`,
/// `remove_node`, `mark_alive_at`, `needs_ping_at` and `evict_stale_at`
/// state it.
pub open spec fn op_step(t: RoutingView, op: RoutingOp, t2: RoutingView) -> bool {
    match op {
        RoutingOp::Add { id, addr, now } => t2 == table_add(t, id, addr, now),
        RoutingOp::Remove { id } => t2 == table_remove(t, id),
        RoutingOp::MarkAlive { id, addr, now } => t2 == table_mark_alive(t, id, addr, now),
        RoutingOp::Ping { target, now, picked } => ping_step(t, target, now, picked, t2),
        RoutingOp::Evict { now } => t2 == table_evict(t, now),
    }
}

/// Each operation keeps the table well formed.
pub proof fn lemma_op_keeps_wf(t: RoutingView, op: RoutingOp, t2: RoutingView)
    requires
        table_wf(t),
        op_step(t, op, t2),
    ensures
        table_wf(t2),
{
    match op {
        RoutingOp::Add { id, addr, now } => {
            if id.id@ != t.local {
                let idx = bucket_of(t.local, id.id@);
                lemma_bucket_range(t.local, id.id@);
                assert(bucket_wf(t.local, idx, t.buckets[idx]));
                lemma_bucket_add_wf(t.local, idx, t.buckets[idx], new_entry(id, addr, now));
                RoutingTable::lemma_with_bucket_wf(t, idx, bucket_add(t.buckets[idx], new_entry(id, addr, now)));
            }
        },
        RoutingOp::Remove { id } => {
            let idx = bucket_of(t.local, id.id@);
            lemma_bucket_range(t.local, id.id@);
            let b = t.buckets[idx];
            assert(bucket_wf(t.local, idx, b));
            lemma_filter_sub(b.active, other_than(id.id@));
            lemma_filter_sub(b.candidates, other_than(id.id@));
            lemma_filter_within(b.active, other_than(id.id@));
            lemma_filter_within(b.candidates, other_than(id.id@));
            lemma_filter_other_than(b.active, id.id@);
            lemma_filter_other_than(b.candidates, id.id@);
            let fa = b.active.filter(other_than(id.id@));
            let fc = b.candidates.filter(other_than(id.id@));
            lemma_placed_within(t.local, idx, fa, b.active);
            lemma_placed_within(t.local, idx, fc, b.candidates);
            assert forall|i: int| 0 <= i < fa.len() implies !lists_id(fc, #[trigger] fa[i].id.id@) by {
                assert(lists_id(b.active, fa[i].id.id@));
                let k = choose|k: int| 0 <= k < b.active.len() && #[trigger] b.active[k].id.id@ == fa[i].id.id@;
            }
            RoutingTable::lemma_with_bucket_wf(t, idx, BucketView { active: fa, candidates: fc });
        },
        RoutingOp::MarkAlive { id, addr, now } => {
            let idx = bucket_of(t.local, id.id@);
            lemma_bucket_range(t.local, id.id@);
            let b = t.buckets[idx];
            assert(bucket_wf(t.local, idx, b));
            if id.id@ == t.local {
                assert(!lists_id(b.active, id.id@)) by {
                    if lists_id(b.active, id.id@) {
                        let k = choose|k: int| 0 <= k < b.active.len() && #[trigger] b.active[k].id.id@ == id.id@;
                    }
                }
                assert(!lists_id(b.candidates, id.id@)) by {
                    if lists_id(b.candidates, id.id@) {
                        let k = choose|k: int| 0 <= k < b.candidates.len() && #[trigger] b.candidates[k].id.id@ == id.id@;
                    }
                }
            } else {
                lemma_bucket_add_wf(t.local, idx, b, new_entry(id, addr, now));
            }
            RoutingTable::lemma_with_bucket_wf(t, idx, bucket_refresh(b, new_entry(id, addr, now)));
        },
        RoutingOp::Ping { target, now, picked } => {
            let idx = bucket_of(t.local, target);
            lemma_bucket_range(t.local, target);
            let b = t.buckets[idx];
            assert(bucket_wf(t.local, idx, b));
            match picked {
                None => {},
                Some((pid, paddr)) => {
                    let m = choose|m: int| #[trigger] oldest_due(b.active, now, m)
                        && pid == b.active[m].id && paddr == b.active[m].addr
                        && t2 == with_bucket(t, idx, BucketView {
                            active: b.active.update(m, pinged_at(b.active[m], now)),
                            candidates: b.candidates,
                        });
                    lemma_ping_wf(t.local, idx, b, m, now);
                    RoutingTable::lemma_with_bucket_wf(t, idx, BucketView {
                        active: b.active.update(m, pinged_at(b.active[m], now)),
                        candidates: b.candidates,
                    });
                },
            }
        },
        RoutingOp::Evict { now } => {
            assert forall|i: int| 0 <= i < 256 implies #[trigger] bucket_wf(t2.local, i, t2.buckets[i]) by {
                assert(bucket_wf(t.local, i, t.buckets[i]));
                lemma_evict_bucket_wf(t.local, i, t.buckets[i], now);
            }
        },
    }
}

/// The table operation `i` of a run starts from: the first table, else
/// what operation `i - 1` made.
pub open spec fn table_before(t0: RoutingView, ts: Seq<RoutingView>, i: int) -> RoutingView {
    if i == 0 { t0 } else { ts[i - 1] }
}

/// Well-formedness is kept over any sequence of operations: starting from a
/// well-formed table (such as `RoutingTable::new` gives), every table that
/// a run of operations passes through is well formed, so every bucket stays
/// within capacity, no ID is listed twice, every entry sits in the bucket of
/// its prefix length, and the local ID is never listed.
pub proof fn lemma_ops_keep_wf(t0: RoutingView, ops: Seq<RoutingOp>, ts: Seq<RoutingView>)
    requires
        table_wf(t0),
        ts.len() == ops.len(),
        forall|i: int| 0 <= i < ops.len() ==> #[trigger] op_step(table_before(t0, ts, i), ops[i], ts[i]),
    ensures
        forall|i: int| 0 <= i < ts.len() ==> #[trigger] table_wf(ts[i]),
    decreases ops.len(),
{
    if ops.len() > 0 {
        let n = ops.len() - 1;
        assert forall|i: int| 0 <= i < n implies #[trigger] op_step(table_before(t0, ts.take(n), i), ops.take(n)[i], ts.take(n)[i]) by {
            assert(op_step(table_before(t0, ts, i), ops[i], ts[i]));
            assert(table_before(t0, ts.take(n), i) == table_before(t0, ts, i));
        }
        lemma_ops_keep_wf(t0, ops.take(n), ts.take(n));
        assert forall|i: int| 0 <= i < ts.len() implies #[trigger] table_wf(ts[i]) by {
            if i < n {
                assert(table_wf(ts.take(n)[i]));
            } else {
                assert(op_step(table_before(t0, ts, i), ops[i], ts[i]));
                if i > 0 {
                    assert(table_wf(ts.take(n)[i - 1]));
                }
                lemma_op_keeps_wf(table_before(t0, ts, i), ops[i], ts[i]);
            }
        }
    }
}

/// Seeing a node whose bucket has both lists full, and which neither list
/// holds, leaves the table as it was.
pub proof fn lemma_add_to_full_bucket(t: RoutingView, id: NodeID, addr: PeerAddr, now: u64)
    requires
        table_wf(t),
        t.buckets[bucket_of(t.local, id.id@)].active.len() >= K,
        t.buckets[bucket_of(t.local, id.id@)].candidates.len() >= K,
        !lists_id(t.buckets[bucket_of(t.local, id.id@)].active, id.id@),
        !lists_id(t.buckets[bucket_of(t.local, id.id@)].candidates, id.id@),
    ensures
        table_add(t, id, addr, now) == t,
{
    let idx = bucket_of(t.local, id.id@);
    lemma_bucket_range(t.local, id.id@);
    if id.id@ != t.local {
        assert(t.buckets.update(idx, t.buckets[idx]) =~= t.buckets);
    }
}

/// The entries of an active list that eviction at `now` keeps active.
pub open spec fn not_stale_at(now: u64) -> spec_fn(Entry) -> bool {
    |e: Entry| !stale_at(e, now)
}

/// The entry at `freshest(c)` was seen at least as recently as every entry.
proof fn lemma_freshest_max(c: Seq<Entry>)
    requires
        c.len() > 0,
    ensures
        0 <= freshest(c) < c.len(),
        forall|j: int| 0 <= j < c.len() ==> c[freshest(c)].last_seen >= #[trigger] c[j].last_seen,
    decreases c.len(),
{
    if c.len() > 1 {
        let d = c.drop_last();
        lemma_freshest_max(d);
        assert forall|j: int| 0 <= j < c.len() implies c[freshest(c)].last_seen >= #[trigger] c[j].last_seen by {
            if j < c.len() - 1 {
                assert(c[j] == d[j]);
                assert(d[freshest(d)] == c[freshest(d)]);
            }
        }
    }
}

/// Promotion keeps the active list as a prefix, moves candidates up until
/// the active list is full or no candidate is left, and every candidate it
/// moves up was seen at least as recently as every candidate it leaves.
proof fn lemma_promote_freshest(a: Seq<Entry>, c: Seq<Entry>)
    ensures
        ({
            let (a3, c3) = promote(a, c);
            &&& a3.len() >= a.len()
            &&& a3.subrange(0, a.len() as int) == a
            &&& a3.len() >= K || c3.len() == 0
            &&& forall|j: int| 0 <= j < c3.len() ==> c.contains(#[trigger] c3[j])
            &&& forall|i: int| a.len() <= i < a3.len() ==> c.contains(#[trigger] a3[i])
            &&& forall|i: int, j: int| a.len() <= i < a3.len() && 0 <= j < c3.len()
                ==> #[trigger] a3[i].last_seen >= #[trigger] c3[j].last_seen
        }),
    decreases c.len(),
{
    if a.len() >= K || c.len() == 0 {
        assert(a.subrange(0, a.len() as int) =~= a);
    } else {
        lemma_freshest_max(c);
        let m = freshest(c);
        let a1 = a.push(c[m]);
        let c1 = c.remove(m);
        lemma_promote_freshest(a1, c1);
        let (a3, c3) = promote(a1, c1);
        assert(promote(a, c) == (a3, c3));
        assert forall|x: Entry| c1.contains(x) implies c.contains(x) by {
            let k = choose|k: int| 0 <= k < c1.len() && c1[k] == x;
            if k < m {
                assert(c[k] == x);
            } else {
                assert(c[k + 1] == x);
            }
        }
        assert(a3.subrange(0, a.len() as int) =~= a1.subrange(0, a.len() as int)) by {
            assert forall|i: int| 0 <= i < a.len() implies a3[i] == a1[i] by {
                assert(a3.subrange(0, a1.len() as int)[i] == a1[i]);
            }
        }
        assert(a1.subrange(0, a.len() as int) =~= a);
        assert forall|j: int| 0 <= j < c3.len() implies c.contains(#[trigger] c3[j]) by {
            assert(c1.contains(c3[j]));
        }
        assert forall|i: int| a.len() <= i < a3.len() implies c.contains(#[trigger] a3[i]) by {
            if i == a.len() {
                assert(a3[i] == a3.subrange(0, a1.len() as int)[i]);
                assert(a3[i] == c[m]);
            } else {
                assert(c1.contains(a3[i]));
            }
        }
        assert forall|i: int, j: int| a.len() <= i < a3.len() && 0 <= j < c3.len()
            implies #[trigger] a3[i].last_seen >= #[trigger] c3[j].last_seen by {
            if i == a.len() {
                assert(a3[i] == a3.subrange(0, a1.len() as int)[i]);
                assert(a3[i] == c[m]);
                assert(c1.contains(c3[j]));
                let k = choose|k: int| 0 <= k < c1.len() && c1[k] == c3[j];
                if k < m {
                    assert(c[k] == c3[j]);
                } else {
                    assert(c[k + 1] == c3[j]);
                }
            }
        }
    }
}

/// Demotion keeps, in order, exactly the active entries that are not stale.
proof fn lemma_demote_keeps(a: Seq<Entry>, c: Seq<Entry>, now: u64)
    ensures
        demote(a, c, now).0 == a.filter(not_stale_at(now)),
    decreases a.len(),
{
    reveal(Seq::filter);
    if a.len() > 0 {
        lemma_demote_keeps(a.drop_last(), c, now);
    }
}

/// Eviction at `now` keeps the active entries that are not stale, in order,
/// at the front of the active list; then fills the list from the candidates
/// until it is full or none is left, and every candidate it moves up was seen
/// at least as recently as every candidate left behind.
pub proof fn lemma_evict_promotes_freshest(b: BucketView, now: u64)
    ensures
        ({
            let r = evict_bucket(b, now);
            let kept = b.active.filter(not_stale_at(now));
            &&& r.active.len() >= kept.len()
            &&& r.active.subrange(0, kept.len() as int) == kept
            &&& r.active.len() >= K || r.candidates.len() == 0
            &&& forall|i: int, j: int| kept.len() <= i < r.active.len() && 0 <= j < r.candidates.len()
                ==> #[trigger] r.active[i].last_seen >= #[trigger] r.candidates[j].last_seen
        }),
{
    let c1 = b.candidates.filter(fresh_at(now));
    lemma_demote_keeps(b.active, c1, now);
    let (a2, c2) = demote(b.active, c1, now);
    lemma_promote_freshest(a2, c2);
}

/// `r` is bucket `b` after eviction at `now` when it comes to promotion:
/// the active entries that are not stale stay in front, in order; the list
/// is filled from the candidates until full or none is left; and every
/// candidate moved up was seen at least as recently as every one left.
pub open spec fn promotes_freshest(b: BucketView, r: BucketView, now: u64) -> bool {
    let kept = b.active.filter(not_stale_at(now));
    &&& r.active.len() >= kept.len()
    &&& r.active.subrange(0, kept.len() as int) == kept
    &&& r.active.len() >= K || r.candidates.len() == 0
    &&& forall|i: int, j: int| kept.len() <= i < r.active.len() && 0 <= j < r.candidates.len()
        ==> #[trigger] r.active[i].last_seen >= #[trigger] r.candidates[j].last_seen
}

/// Evicting the whole table at `now` (`evict_stale_at`) promotes, in every
/// bucket, the most recently seen candidates.
pub proof fn lemma_evict_table_promotes_freshest(t: RoutingView, now: u64)
    ensures
        table_evict(t, now).buckets.len() == t.buckets.len(),
        forall|i: int| 0 <= i < t.buckets.len()
            ==> promotes_freshest(t.buckets[i], #[trigger] table_evict(t, now).buckets[i], now),
{
    assert forall|i: int| 0 <= i < t.buckets.len()
        implies promotes_freshest(t.buckets[i], #[trigger] table_evict(t, now).buckets[i], now) by {
        lemma_evict_promotes_freshest(t.buckets[i], now);
    }
}

/// ID `x` is listed, active or as a candidate, in its bucket of table `t`.
pub open spec fn table_lists(t: RoutingView, x: Seq<u8>) -> bool {
    let b = t.buckets[bucket_of(t.local, x)];
    lists_id(b.active, x) || lists_id(b.candidates, x)
}

/// Both lists of the bucket of ID `x` are full in table `t`.
pub open spec fn bucket_full(t: RoutingView, x: Seq<u8>) -> bool {
    let b = t.buckets[bucket_of(t.local, x)];
    b.active.len() >= K && b.candidates.len() >= K
}

/// Table `t` knows of node `x`: it lists it, or it is the local node, or
/// the bucket it belongs to has no room for it.
pub open spec fn knows_of(t: RoutingView, x: Seq<u8>) -> bool {
    x == t.local || table_lists(t, x) || bucket_full(t, x)
}

proof fn lemma_filter_len(s: Seq<Entry>, id: Seq<u8>)
    requires
        no_dup(s),
    ensures
        s.filter(other_than(id)).len() == if lists_id(s, id) { s.len() - 1 } else { s.len() as int },
    decreases s.len(),
{
    reveal(Seq::filter);
    if s.len() > 0 {
        let rest = s.drop_last();
        assert(no_dup(rest)) by {
            assert forall|i: int, j: int| 0 <= i < j < rest.len() implies #[trigger] rest[i].id.id@ != #[trigger] rest[j].id.id@ by {
                assert(rest[i] == s[i] && rest[j] == s[j]);
            }
        }
        lemma_filter_len(rest, id);
        if s.last().id.id@ == id {
            assert(!lists_id(rest, id)) by {
                if lists_id(rest, id) {
                    let k = choose|k: int| 0 <= k < rest.len() && #[trigger] rest[k].id.id@ == id;
                    assert(s[k].id.id@ == s[s.len() - 1].id.id@);
                }
            }
        } else {
            assert(lists_id(s, id) == lists_id(rest, id)) by {
                if lists_id(s, id) {
                    let k = choose|k: int| 0 <= k < s.len() && #[trigger] s[k].id.id@ == id;
                    assert(rest[k].id.id@ == id);
                }
                if lists_id(rest, id) {
                    let k = choose|k: int| 0 <= k < rest.len() && #[trigger] rest[k].id.id@ == id;
                    assert(s[k].id.id@ == id);
                }
            }
        }
    }
}

proof fn lemma_push_lists(s: Seq<Entry>, e: Entry, x: Seq<u8>)
    ensures
        lists_id(s, x) ==> lists_id(s.push(e), x),
        lists_id(s.push(e), e.id.id@),
{
    if lists_id(s, x) {
        let k = choose|k: int| 0 <= k < s.len() && #[trigger] s[k].id.id@ == x;
        assert(s.push(e)[k] == s[k]);
    }
    assert(s.push(e)[s.len() as int] == e);
}

/// Seeing a node forgets no node and frees no room: an ID listed before is
/// listed after, and a bucket that was full stays full.
pub proof fn lemma_add_keeps_known(t: RoutingView, id: NodeID, addr: PeerAddr, now: u64, x: Seq<u8>)
    requires
        table_wf(t),
    ensures
        table_add(t, id, addr, now).local == t.local,
        table_lists(t, x) ==> table_lists(table_add(t, id, addr, now), x),
        bucket_full(t, x) ==> bucket_full(table_add(t, id, addr, now), x),
        knows_of(t, x) ==> knows_of(table_add(t, id, addr, now), x),
{
    let t2 = table_add(t, id, addr, now);
    if id.id@ != t.local {
        let idx = bucket_of(t.local, id.id@);
        let ix = bucket_of(t.local, x);
        lemma_bucket_range(t.local, id.id@);
        lemma_bucket_range(t.local, x);
        if ix == idx {
            let b = t.buckets[idx];
            assert(bucket_wf(t.local, idx, b));
            let e = new_entry(id, addr, now);
            let nb = bucket_add(b, e);
            assert(t2.buckets[idx] == nb);
            if lists_id(b.active, id.id@) {
                let f = b.active.filter(other_than(id.id@));
                lemma_filter_other_than(b.active, id.id@);
                lemma_filter_len(b.active, id.id@);
                lemma_push_lists(f, e, x);
                if x != id.id@ {
                    assert(lists_id(b.active, x) ==> lists_id(f, x));
                }
            } else if lists_id(b.candidates, id.id@) {
                let f = b.candidates.filter(other_than(id.id@));
                lemma_filter_other_than(b.candidates, id.id@);
                lemma_filter_len(b.candidates, id.id@);
                lemma_push_lists(f, e, x);
                if x != id.id@ {
                    assert(lists_id(b.candidates, x) ==> lists_id(f, x));
                }
            } else if b.active.len() < K {
                lemma_push_lists(b.active, e, x);
            } else if b.candidates.len() < K {
                lemma_push_lists(b.candidates, e, x);
            }
        } else {
            assert(t2.buckets[ix] == t.buckets[ix]);
        }
    }
}

/// A node that is seen is known afterwards.
pub proof fn lemma_add_knows(t: RoutingView, id: NodeID, addr: PeerAddr, now: u64)
    requires
        table_wf(t),
    ensures
        knows_of(table_add(t, id, addr, now), id.id@),
{
    lemma_add_lists(t, id, addr, now);
    if id.id@ != t.local {
        let idx = bucket_of(t.local, id.id@);
        lemma_bucket_range(t.local, id.id@);
        assert(table_add(t, id, addr, now).buckets[idx] == bucket_add(t.buckets[idx], new_entry(id, addr, now)));
    }
}

/// Seeing each node of a list, in order (as a `Nodes` or `Value` response
/// makes a node do), leaves the table knowing every node of the list: each
/// is listed in its bucket, unless it is the local node or its bucket has no
/// room; and what the table knew before it still knows.
pub proof fn lemma_add_all_knows(t: RoutingView, ns: Seq<(NodeID, PeerAddr)>, now: u64)
    requires
        table_wf(t),
    ensures
        table_wf(add_all(t, ns, now)),
        add_all(t, ns, now).local == t.local,
        forall|i: int| 0 <= i < ns.len() ==> knows_of(add_all(t, ns, now), #[trigger] ns[i].0.id@),
        forall|x: Seq<u8>| knows_of(t, x) ==> #[trigger] knows_of(add_all(t, ns, now), x),
    decreases ns.len(),
{
    if ns.len() > 0 {
        let init = ns.drop_last();
        lemma_add_all_knows(t, init, now);
        let t1 = add_all(t, init, now);
        let last = ns.last();
        let t2 = table_add(t1, last.0, last.1, now);
        assert(add_all(t, ns, now) == t2);
        lemma_op_keeps_wf(t1, RoutingOp::Add { id: last.0, addr: last.1, now }, t2);
        lemma_add_keeps_known(t1, last.0, last.1, now, last.0.id@);
        lemma_add_knows(t1, last.0, last.1, now);
        assert forall|i: int| 0 <= i < ns.len() implies knows_of(t2, #[trigger] ns[i].0.id@) by {
            if i < ns.len() - 1 {
                assert(ns[i] == init[i]);
                assert(knows_of(t1, init[i].0.id@));
                lemma_add_keeps_known(t1, last.0, last.1, now, ns[i].0.id@);
            }
        }
        assert forall|x: Seq<u8>| knows_of(t, x) implies #[trigger] knows_of(t2, x) by {
            assert(knows_of(t1, x));
            lemma_add_keeps_known(t1, last.0, last.1, now, x);
        }
    }
}

} // verus!
