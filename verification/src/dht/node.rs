//! The server side of the DHT: answering queries, learning from responses,
//! and keeping stored values until they expire.

use vstd::prelude::*;
use crate::clock::now_millis;
use crate::dht::node_id::NodeID;
use crate::dht::protocol::{DhtOperation, DhtOpView, parse_op};
use crate::dht::routing::{RoutingTable, RoutingView, RoutingOp, K, closest_answer, table_add, add_all, table_wf, knows_of,
    lemma_add_knows, lemma_add_keeps_known, lemma_add_all_knows, lemma_op_keeps_wf};
use crate::network::addr::PeerAddr;
use crate::protocol::packet::Packet;

verus! {

/// A stored value and the time (milliseconds) at which it expires.
pub struct StoredValue {
    pub key: [u8; 32],
    pub value: Vec<u8>,
    pub expires_at: u64,
}

pub type StoreMap = Map<Seq<u8>, (Seq<u8>, u64)>;

/// The store as a map from key to value and expiry; a later entry for a key
/// overrides an earlier one.
pub open spec fn store_map(s: Seq<StoredValue>) -> StoreMap
    decreases s.len(),
{
    if s.len() == 0 {
        Map::empty()
    } else {
        store_map(s.drop_last()).insert(s.last().key@, (s.last().value@, s.last().expires_at))
    }
}

pub open spec fn keys_unique(s: Seq<StoredValue>) -> bool {
    forall|i: int, j: int| 0 <= i < j < s.len() ==> #[trigger] s[i].key@ != #[trigger] s[j].key@
}

/// When a value stored at `now` for `ttl` seconds expires; `now` itself if
/// that time does not fit the clock.
pub open spec fn store_expiry(now: u64, ttl: u32) -> u64 {
    if now + ttl * 1000 <= u64::MAX { (now + ttl * 1000) as u64 } else { now }
}

/// The value stored for `key` that has not expired at `now`.
pub open spec fn live_value(m: StoreMap, key: Seq<u8>, now: u64) -> Option<Seq<u8>> {
    if m.dom().contains(key) && m[key].1 > now { Some(m[key].0) } else { None }
}

pub open spec fn not_from(sid: NodeID) -> spec_fn((NodeID, PeerAddr)) -> bool {
    |p: (NodeID, PeerAddr)| p.0.id@ != sid.id@
}

pub open spec fn sender_of(op: DhtOperation) -> NodeID {
    match op {
        DhtOperation::Ping { sender_id } => sender_id,
        DhtOperation::Pong { sender_id } => sender_id,
        DhtOperation::FindNode { sender_id, .. } => sender_id,
        DhtOperation::Nodes { sender_id, .. } => sender_id,
        DhtOperation::Store { sender_id, .. } => sender_id,
        DhtOperation::StoreAck { sender_id, .. } => sender_id,
        DhtOperation::FindValue { sender_id, .. } => sender_id,
        DhtOperation::Value { sender_id, .. } => sender_id,
    }
}

pub open spec fn opt_bytes(v: Option<Vec<u8>>) -> Option<Seq<u8>> {
    match v {
        Some(b) => Some(b@),
        None => None,
    }
}

/// What node `id`, with routing table `t` and store `m`, does with `op` from
/// `sender` at `now`: it always learns the sender; it answers queries to the
/// sender (the nearest nodes it knows leave the asking node out), stores
/// values, and learns the nodes that responses carry.
pub open spec fn op_outcome(
    id: NodeID,
    t: RoutingView,
    m: StoreMap,
    op: DhtOperation,
    sender: PeerAddr,
    now: u64,
    t2: RoutingView,
    m2: StoreMap,
    r: Option<(DhtOperation, PeerAddr)>,
) -> bool {
    let sid = sender_of(op);
    let learned = table_add(t, sid, sender, now);
    match op {
        DhtOperation::Ping { .. } => {
            &&& t2 == learned
            &&& m2 == m
            &&& r matches Some((o, a)) && a == sender && o@ == (DhtOpView::Pong { sender_id: id.id@ })
        },
        DhtOperation::FindNode { target_id, .. } => {
            &&& t2 == learned
            &&& m2 == m
            &&& r matches Some((o, a)) && a == sender
                && (o matches DhtOperation::Nodes { sender_id, nodes } && sender_id == id
                && exists|s: Seq<(NodeID, PeerAddr)>| #[trigger] closest_answer(t, target_id.id@, K as nat, s)
                    && nodes@ == s.filter(not_from(sid)))
        },
        DhtOperation::FindValue { key, .. } => {
            &&& t2 == learned
            &&& m2 == m
            &&& r matches Some((o, a)) && a == sender
                && (o matches DhtOperation::Value { sender_id, key: k2, value, closest_nodes } && sender_id == id && k2 == key
                && opt_bytes(value) == live_value(m, key@, now)
                && exists|s: Seq<(NodeID, PeerAddr)>| #[trigger] closest_answer(t, key@, K as nat, s)
                    && closest_nodes@ == s.filter(not_from(sid)))
        },
        DhtOperation::Store { key, value, ttl_seconds, .. } => {
            &&& t2 == learned
            &&& m2 == m.insert(key@, (value@, store_expiry(now, ttl_seconds)))
            &&& r matches Some((o, a)) && a == sender && o@ == (DhtOpView::StoreAck { sender_id: id.id@, key: key@ })
        },
        DhtOperation::Pong { .. } => t2 == learned && m2 == m && r is None,
        DhtOperation::StoreAck { .. } => t2 == learned && m2 == m && r is None,
        DhtOperation::Nodes { nodes, .. } => t2 == add_all(learned, nodes@, now) && m2 == m && r is None,
        DhtOperation::Value { closest_nodes, .. } => t2 == add_all(learned, closest_nodes@, now) && m2 == m && r is None,
    }
}

/// The nodes a response carries: those of a `Nodes` or a `Value` response.
pub open spec fn carried_nodes(op: DhtOperation) -> Seq<(NodeID, PeerAddr)> {
    match op {
        DhtOperation::Nodes { nodes, .. } => nodes@,
        DhtOperation::Value { closest_nodes, .. } => closest_nodes@,
        _ => Seq::empty(),
    }
}

/// A node learns from a response: after handling a `Nodes` or a `Value`
/// response, its routing table knows the sender and every node the
/// response carries. Each is listed in its bucket, unless it is the local
/// node or its bucket has no room left; and every node the table knew
/// before it still knows.
pub proof fn lemma_response_nodes_learned(
    id: NodeID,
    t: RoutingView,
    m: StoreMap,
    op: DhtOperation,
    sender: PeerAddr,
    now: u64,
    t2: RoutingView,
    m2: StoreMap,
    r: Option<(DhtOperation, PeerAddr)>,
)
    requires
        table_wf(t),
        op is Nodes || op is Value,
        op_outcome(id, t, m, op, sender, now, t2, m2, r),
    ensures
        r is None,
        m2 == m,
        knows_of(t2, sender_of(op).id@),
        forall|i: int| 0 <= i < carried_nodes(op).len() ==> knows_of(t2, #[trigger] carried_nodes(op)[i].0.id@),
        forall|x: Seq<u8>| knows_of(t, x) ==> #[trigger] knows_of(t2, x),
{
    let sid = sender_of(op);
    let learned = table_add(t, sid, sender, now);
    lemma_add_knows(t, sid, sender, now);
    assert forall|x: Seq<u8>| knows_of(t, x) implies #[trigger] knows_of(learned, x) by {
        lemma_add_keeps_known(t, sid, sender, now, x);
    }
    lemma_op_keeps_wf(t, RoutingOp::Add { id: sid, addr: sender, now }, learned);
    lemma_add_all_knows(learned, carried_nodes(op), now);
    assert(t2 == add_all(learned, carried_nodes(op), now));
}

/// A value that a node stored is what the node answers to a lookup of the
/// same key, until the value expires.
pub proof fn lemma_store_then_find(
    id: NodeID,
    t: RoutingView,
    m: StoreMap,
    store: DhtOperation,
    from: PeerAddr,
    now: u64,
    t2: RoutingView,
    m2: StoreMap,
    r: Option<(DhtOperation, PeerAddr)>,
    find: DhtOperation,
    from2: PeerAddr,
    later: u64,
    t3: RoutingView,
    m3: StoreMap,
    r2: Option<(DhtOperation, PeerAddr)>,
)
    requires
        store matches DhtOperation::Store { .. },
        find matches DhtOperation::FindValue { .. },
        store->Store_key == find->FindValue_key,
        later < store_expiry(now, store->Store_ttl_seconds),
        op_outcome(id, t, m, store, from, now, t2, m2, r),
        op_outcome(id, t2, m2, find, from2, later, t3, m3, r2),
    ensures
        r2 matches Some((DhtOperation::Value { value: Some(v), .. }, _)) && v@ == store->Store_value@,
{
}

proof fn lemma_store_lookup(s: Seq<StoredValue>, i: int)
    requires
        keys_unique(s),
        0 <= i < s.len(),
    ensures
        store_map(s).dom().contains(s[i].key@),
        store_map(s)[s[i].key@] == (s[i].value@, s[i].expires_at),
    decreases s.len(),
{
    if i < s.len() - 1 {
        let p = s.drop_last();
        assert(p[i] == s[i]);
        lemma_store_lookup(p, i);
        assert(s.last().key@ != s[i].key@);
    }
}

proof fn lemma_store_absent(s: Seq<StoredValue>, k: Seq<u8>)
    requires
        forall|i: int| 0 <= i < s.len() ==> #[trigger] s[i].key@ != k,
    ensures
        !store_map(s).dom().contains(k),
    decreases s.len(),
{
    if s.len() > 0 {
        let p = s.drop_last();
        assert forall|i: int| 0 <= i < p.len() implies #[trigger] p[i].key@ != k by {
            assert(p[i] == s[i]);
        }
        lemma_store_absent(p, k);
        assert(s[s.len() - 1].key@ != k);
    }
}

proof fn lemma_store_replace(s: Seq<StoredValue>, i: int, x: StoredValue)
    requires
        keys_unique(s),
        0 <= i < s.len(),
        x.key@ == s[i].key@,
    ensures
        store_map(s.update(i, x)) == store_map(s).insert(x.key@, (x.value@, x.expires_at)),
        keys_unique(s.update(i, x)),
    decreases s.len(),
{
    let u = s.update(i, x);
    assert forall|a: int, b: int| 0 <= a < b < u.len() implies #[trigger] u[a].key@ != #[trigger] u[b].key@ by {
        assert(u[a].key@ == s[a].key@ && u[b].key@ == s[b].key@);
    }
    if i == s.len() - 1 {
        assert(u.drop_last() =~= s.drop_last());
        assert(!store_map(s.drop_last()).dom().contains(x.key@) || true);
        assert(store_map(u) =~= store_map(s).insert(x.key@, (x.value@, x.expires_at)));
    } else {
        let p = s.drop_last();
        assert(u.drop_last() =~= p.update(i, x));
        assert forall|a: int, b: int| 0 <= a < b < p.len() implies #[trigger] p[a].key@ != #[trigger] p[b].key@ by {
            assert(p[a] == s[a] && p[b] == s[b]);
        }
        assert(p[i] == s[i]);
        lemma_store_replace(p, i, x);
        assert(s.last().key@ != x.key@);
        assert(store_map(u) =~= store_map(s).insert(x.key@, (x.value@, x.expires_at)));
    }
}

pub struct DhtNode {
    pub id: NodeID,
    pub addr: PeerAddr,
    pub routing: RoutingTable,
    pub store: Vec<StoredValue>,
}

impl DhtNode {
    pub open spec fn wf(&self) -> bool {
        self.routing.wf() && keys_unique(self.store@)
    }

    pub open spec fn stored(&self) -> StoreMap {
        store_map(self.store@)
    }

    pub fn new(id: NodeID, addr: PeerAddr) -> (r: Self)
        ensures
            r.wf(),
            r.id == id,
            r.addr == addr,
            r.routing@.local == id.id@,
            r.stored() == StoreMap::empty(),
    {
        DhtNode { id, addr, routing: RoutingTable::new(id), store: Vec::new() }
    }

    /// The live value stored for `key` at `now`.
    fn lookup_value(&self, key: &[u8; 32], now: u64) -> (r: Option<Vec<u8>>)
        requires
            self.wf(),
        ensures
            opt_bytes(r) == live_value(self.stored(), key@, now),
    {
        let mut i: usize = 0;
        while i < self.store.len()
            invariant
                i <= self.store@.len(),
                keys_unique(self.store@),
                forall|k: int| 0 <= k < i ==> #[trigger] self.store@[k].key@ != key@,
            decreases self.store@.len() - i,
        {
            if crate::protocol::wire::same_bytes(self.store[i].key.as_slice(), key.as_slice()) {
                proof {
                    lemma_store_lookup(self.store@, i as int);
                }
                if self.store[i].expires_at > now {
                    let v = self.store[i].value.clone();
                    assert(v@ =~= self.store@[i as int].value@);
                    return Some(v);
                }
                return None;
            }
            i = i + 1;
        }
        proof {
            lemma_store_absent(self.store@, key@);
        }
        None
    }

    /// Stores `value` under `key` until `expires_at`, replacing what the key held.
    fn put_value(&mut self, key: [u8; 32], value: Vec<u8>, expires_at: u64)
        requires
            old(self).wf(),
        ensures
            final(self).wf(),
            final(self).routing == old(self).routing,
            final(self).id == old(self).id,
            final(self).addr == old(self).addr,
            final(self).stored() == old(self).stored().insert(key@, (value@, expires_at)),
    {
        let ghost s = self.store@;
        let mut found: Option<usize> = None;
        let mut i: usize = 0;
        while i < self.store.len()
            invariant
                s == self.store@,
                i <= s.len(),
                found matches Some(j) ==> j < s.len() && s[j as int].key@ == key@,
                found is None ==> forall|k: int| 0 <= k < i ==> #[trigger] s[k].key@ != key@,
            ensures
                found matches Some(j) ==> j < s.len() && s[j as int].key@ == key@,
                found is None ==> forall|k: int| 0 <= k < s.len() ==> #[trigger] s[k].key@ != key@,
            decreases s.len() - i,
        {
            if crate::protocol::wire::same_bytes(self.store[i].key.as_slice(), key.as_slice()) {
                found = Some(i);
                break;
            }
            i = i + 1;
        }
        let x = StoredValue { key, value, expires_at };
        match found {
            Some(j) => {
                proof {
                    lemma_store_replace(s, j as int, x);
                }
                self.store.set(j, x);
            },
            None => {
                self.store.push(x);
                proof {
                    assert(self.store@.drop_last() =~= s);
                    assert forall|a: int, b: int| 0 <= a < b < self.store@.len() implies #[trigger] self.store@[a].key@ != #[trigger] self.store@[b].key@ by {
                        if b < s.len() {
                            assert(self.store@[a] == s[a] && self.store@[b] == s[b]);
                        } else {
                            assert(self.store@[a] == s[a]);
                        }
                    }
                }
            },
        }
    }

    /// The nearest nodes to `target` that the table knows, without `sid`.
    fn nearest_without(&self, target: &NodeID, sid: &NodeID) -> (r: Vec<(NodeID, PeerAddr)>)
        requires
            self.routing.wf(),
        ensures
            exists|s: Seq<(NodeID, PeerAddr)>| #[trigger] closest_answer(self.routing@, target.id@, K as nat, s)
                && r@ == s.filter(not_from(*sid)),
    {
        let all = self.routing.closest_nodes(target, K);
        let mut out: Vec<(NodeID, PeerAddr)> = Vec::new();
        let mut i: usize = 0;
        while i < all.len()
            invariant
                i <= all@.len(),
                out@ == all@.take(i as int).filter(not_from(*sid)),
            decreases all@.len() - i,
        {
            proof {
                reveal(Seq::filter);
                assert(all@.take(i + 1).drop_last() =~= all@.take(i as int));
            }
            let p = all[i];
            if !p.0.same_as(sid) {
                out.push(p);
            }
            i = i + 1;
        }
        assert(all@.take(all@.len() as int) =~= all@);
        assert(closest_answer(self.routing@, target.id@, K as nat, all@));
        out
    }

    /// Handles one operation from `sender` at `now`; returns the answer to send,
    /// if the operation is a query.
    pub fn process_op_at(&mut self, op: DhtOperation, sender: PeerAddr, now: u64) -> (r: Option<(DhtOperation, PeerAddr)>)
        requires
            old(self).wf(),
        ensures
            final(self).wf(),
            final(self).id == old(self).id,
            final(self).addr == old(self).addr,
            op_outcome(old(self).id, old(self).routing@, old(self).stored(), op, sender, now,
                final(self).routing@, final(self).stored(), r),
    {
        let sid = op.sender_id();
        proof {
            assert(sid.id@ == sender_of(op).id@);
            assert(sid.id =~= sender_of(op).id);
        }
        match op {
            DhtOperation::Ping { .. } => {
                self.routing.add_node_at(sid, sender, now);
                Some((DhtOperation::Pong { sender_id: self.id }, sender))
            },
            DhtOperation::FindNode { target_id, .. } => {
                let nodes = self.nearest_without(&target_id, &sid);
                self.routing.add_node_at(sid, sender, now);
                Some((DhtOperation::Nodes { sender_id: self.id, nodes }, sender))
            },
            DhtOperation::FindValue { key, .. } => {
                let value = self.lookup_value(&key, now);
                let closest_nodes = self.nearest_without(&NodeID { id: key }, &sid);
                self.routing.add_node_at(sid, sender, now);
                Some((DhtOperation::Value { sender_id: self.id, key, value, closest_nodes }, sender))
            },
            DhtOperation::Store { key, value, ttl_seconds, .. } => {
                self.routing.add_node_at(sid, sender, now);
                let expires_at = match now.checked_add(ttl_seconds as u64 * 1000) {
                    Some(t) => t,
                    None => now,
                };
                self.put_value(key, value, expires_at);
                Some((DhtOperation::StoreAck { sender_id: self.id, key }, sender))
            },
            DhtOperation::Pong { .. } => {
                self.routing.add_node_at(sid, sender, now);
                None
            },
            DhtOperation::StoreAck { .. } => {
                self.routing.add_node_at(sid, sender, now);
                None
            },
            DhtOperation::Nodes { nodes, .. } => {
                self.routing.add_node_at(sid, sender, now);
                self.routing.add_nodes_at(&nodes, now);
                None
            },
            DhtOperation::Value { closest_nodes, .. } => {
                self.routing.add_node_at(sid, sender, now);
                self.routing.add_nodes_at(&closest_nodes, now);
                None
            },
        }
    }

    /// Handles a DHT packet from `sender` at `now`: payloads that are no DHT
    /// operation are ignored.
    pub fn process_at(&mut self, packet: &Packet, sender: PeerAddr, now: u64) -> (r: Option<(DhtOperation, PeerAddr)>)
        requires
            old(self).wf(),
        ensures
            final(self).wf(),
            final(self).id == old(self).id,
            final(self).addr == old(self).addr,
            match parse_op(packet.payload.data@) {
                None => r is None && final(self).routing@ == old(self).routing@ && final(self).stored() == old(self).stored(),
                Some(v) => exists|op: DhtOperation| op@ == v && #[trigger] op_outcome(old(self).id, old(self).routing@,
                    old(self).stored(), op, sender, now, final(self).routing@, final(self).stored(), r),
            },
    {
        let data = packet.payload.data.clone();
        assert(data@ =~= packet.payload.data@);
        let op = match DhtOperation::from_serialized(data) {
            Ok(op) => op,
            Err(_) => return None,
        };
        let ghost op_copy = op;
        let ghost t = self.routing@;
        let ghost m = self.stored();
        let r = self.process_op_at(op, sender, now);
        assert(op_outcome(self.id, t, m, op_copy, sender, now, self.routing@, self.stored(), r));
        r
    }

    /// `process_at` by the wall clock.
    pub fn process(&mut self, packet: &Packet, sender: PeerAddr) -> (r: Option<(DhtOperation, PeerAddr)>)
        requires
            old(self).wf(),
        ensures
            final(self).wf(),
            final(self).id == old(self).id,
            final(self).addr == old(self).addr,
            match parse_op(packet.payload.data@) {
                None => r is None && final(self).routing@ == old(self).routing@ && final(self).stored() == old(self).stored(),
                Some(v) => exists|op: DhtOperation, now: u64| op@ == v && #[trigger] op_outcome(old(self).id, old(self).routing@,
                    old(self).stored(), op, sender, now, final(self).routing@, final(self).stored(), r),
            },
    {
        let now = now_millis();
        self.process_at(packet, sender, now)
    }
}

} // verus!
