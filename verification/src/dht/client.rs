//! The client side of iterative lookups: which node to ask next, and what to
//! do with each answer.

use vstd::prelude::*;
use crate::clock::now_millis;
use crate::dht::node_id::NodeID;
use crate::dht::protocol::{DhtOperation, DhtOpView};
use crate::dht::routing::{
    RoutingTable, RoutingView, K, distance_key, key_le, by_distance, closest_answer, add_all, sort_by_distance,
    distance_key_of, key_lt,
};
use crate::network::addr::PeerAddr;

verus! {

pub struct PendingLookup {
    pub target: NodeID,
    pub find_value_key: Option<[u8; 32]>,
    pub shortlist: Vec<(NodeID, PeerAddr)>,
    /// IDs already asked; each at most once.
    pub queried: Vec<NodeID>,
    pub found_value: Option<Vec<u8>>,
}

pub struct LookupView {
    pub target: NodeID,
    pub find_value_key: Option<[u8; 32]>,
    pub shortlist: Seq<(NodeID, PeerAddr)>,
    pub queried: Set<Seq<u8>>,
    pub found_value: Option<Seq<u8>>,
}

pub open spec fn id_set(ids: Seq<NodeID>) -> Set<Seq<u8>> {
    Set::new(|x: Seq<u8>| exists|i: int| 0 <= i < ids.len() && #[trigger] ids[i].id@ == x)
}

pub open spec fn opt_bytes(v: Option<Vec<u8>>) -> Option<Seq<u8>> {
    match v {
        Some(b) => Some(b@),
        None => None,
    }
}

impl View for PendingLookup {
    type V = LookupView;

    open spec fn view(&self) -> LookupView {
        LookupView {
            target: self.target,
            find_value_key: self.find_value_key,
            shortlist: self.shortlist@,
            queried: id_set(self.queried@),
            found_value: opt_bytes(self.found_value),
        }
    }
}

/// The ID given to seeds, whose real IDs are not known yet.
pub open spec fn unknown_id() -> NodeID {
    NodeID { id: [0u8; 32usize] }
}

/// Among the first `n` shortlist entries not yet asked, the first of those
/// nearest to the target.
pub open spec fn nearest_among(l: LookupView, n: nat) -> Option<int>
    decreases n,
{
    if n == 0 {
        None
    } else {
        let b = nearest_among(l, (n - 1) as nat);
        let i = n - 1;
        let e = l.shortlist[i];
        if l.queried.contains(e.0.id@) {
            b
        } else {
            match b {
                None => Some(i),
                Some(j) => if !key_le(distance_key(l.target.id@, l.shortlist[j].0.id@), distance_key(l.target.id@, e.0.id@)) {
                    Some(i)
                } else {
                    b
                },
            }
        }
    }
}

/// The index of the next node to ask, if any is left.
pub open spec fn next_pick(l: LookupView) -> Option<int> {
    nearest_among(l, l.shortlist.len())
}

pub open spec fn picked(l: LookupView) -> Option<(NodeID, PeerAddr)> {
    match next_pick(l) {
        None => None,
        Some(m) => Some(l.shortlist[m]),
    }
}

/// The lookup after asking the next node: its ID joins the asked ones.
pub open spec fn after_pick(l: LookupView) -> LookupView {
    match next_pick(l) {
        None => l,
        Some(m) => LookupView { queried: l.queried.insert(l.shortlist[m].0.id@), ..l },
    }
}

/// The next pick is an entry not yet asked, none nearer is left, and none as
/// near comes before it; with no pick, every entry was asked.
pub proof fn lemma_next_pick_nearest(l: LookupView)
    ensures
        match next_pick(l) {
            None => forall|j: int| 0 <= j < l.shortlist.len() ==> l.queried.contains(#[trigger] l.shortlist[j].0.id@),
            Some(m) => {
                &&& 0 <= m < l.shortlist.len()
                &&& !l.queried.contains(l.shortlist[m].0.id@)
                &&& forall|j: int| 0 <= j < l.shortlist.len() && !l.queried.contains(#[trigger] l.shortlist[j].0.id@)
                    ==> key_le(distance_key(l.target.id@, l.shortlist[m].0.id@), distance_key(l.target.id@, l.shortlist[j].0.id@))
                &&& forall|j: int| 0 <= j < m && !l.queried.contains(#[trigger] l.shortlist[j].0.id@)
                    ==> !key_le(distance_key(l.target.id@, l.shortlist[j].0.id@), distance_key(l.target.id@, l.shortlist[m].0.id@))
            },
        },
{
    lemma_nearest_among(l, l.shortlist.len());
}

proof fn lemma_nearest_among(l: LookupView, n: nat)
    requires
        n <= l.shortlist.len(),
    ensures
        match nearest_among(l, n) {
            None => forall|j: int| 0 <= j < n ==> l.queried.contains(#[trigger] l.shortlist[j].0.id@),
            Some(m) => {
                &&& 0 <= m < n
                &&& !l.queried.contains(l.shortlist[m].0.id@)
                &&& forall|j: int| 0 <= j < n && !l.queried.contains(#[trigger] l.shortlist[j].0.id@)
                    ==> key_le(distance_key(l.target.id@, l.shortlist[m].0.id@), distance_key(l.target.id@, l.shortlist[j].0.id@))
                &&& forall|j: int| 0 <= j < m && !l.queried.contains(#[trigger] l.shortlist[j].0.id@)
                    ==> !key_le(distance_key(l.target.id@, l.shortlist[j].0.id@), distance_key(l.target.id@, l.shortlist[m].0.id@))
            },
        },
    decreases n,
{
    if n > 0 {
        lemma_nearest_among(l, (n - 1) as nat);
    }
}

/// The node IDs of the entries a response carries.
pub open spec fn response_nodes(op: DhtOperation) -> Seq<(NodeID, PeerAddr)> {
    match op {
        DhtOperation::Nodes { nodes, .. } => nodes@,
        DhtOperation::Value { closest_nodes, .. } => closest_nodes@,
        _ => Seq::empty(),
    }
}

/// The query a lookup sends to its next node.
pub open spec fn query_for(id: NodeID, l: LookupView) -> DhtOpView {
    match l.find_value_key {
        Some(key) => DhtOpView::FindValue { sender_id: id.id@, key: key@ },
        None => DhtOpView::FindNode { sender_id: id.id@, target_id: l.target.id@ },
    }
}

/// `r` asks the picked node of `l` with `query`, or is `None` when no node is left.
pub open spec fn sends_pick(l: LookupView, query: DhtOpView, r: Option<(DhtOperation, PeerAddr)>) -> bool {
    match picked(l) {
        None => r is None,
        Some((_, addr)) => r matches Some((op, a)) && a == addr && op@ == query,
    }
}

/// What a lookup does with a response that does not end it: the carried
/// nodes join the shortlist, which is cut to the `K` nearest, and the next
/// node is asked.
pub open spec fn continue_lookup(id: NodeID, l: LookupView, s: Seq<(NodeID, PeerAddr)>, after: LookupView, r: (Option<(DhtOperation, PeerAddr)>, bool)) -> bool {
    let l2 = LookupView { shortlist: if s.len() > K { s.take(K as int) } else { s }, ..l };
    &&& s.to_multiset() == l.shortlist.to_multiset()
    &&& by_distance(l.target.id@, s)
    &&& after == after_pick(l2)
    &&& sends_pick(l2, query_for(id, l), r.0)
    &&& r.1 == (picked(l2) is None)
}

/// What feeding `op` to client `c` with routing table `t` at `now` gives:
/// with no lookup under way, nothing happens and the answer is "over";
/// otherwise the carried nodes are seen in `t` and join the shortlist, and a
/// found value ends the lookup, or the lookup continues.
pub open spec fn response_outcome(
    id: NodeID,
    lk: Option<LookupView>,
    op: DhtOperation,
    t: RoutingView,
    now: u64,
    lk2: Option<LookupView>,
    t2: RoutingView,
    r: (Option<(DhtOperation, PeerAddr)>, bool),
) -> bool {
    match lk {
        None => r.0 is None && r.1 && lk2 is None && t2 == t,
        Some(l) => {
            let l1 = LookupView { shortlist: l.shortlist + response_nodes(op), ..l };
            &&& t2 == add_all(t, response_nodes(op), now)
            &&& match op {
                DhtOperation::Value { value: Some(v), .. } => r.0 is None && r.1
                    && lk2 == Some(LookupView { found_value: Some(v@), ..l1 }),
                _ => exists|s: Seq<(NodeID, PeerAddr)>| #[trigger] s.to_multiset() == l1.shortlist.to_multiset()
                    && (lk2 matches Some(after) && continue_lookup(id, l1, s, after, r)),
            }
        },
    }
}

impl PendingLookup {
    pub open spec fn wf(&self) -> bool {
        forall|i: int, j: int| 0 <= i < j < self.queried@.len() ==> #[trigger] self.queried@[i].id@ != #[trigger] self.queried@[j].id@
    }

    fn was_queried(&self, id: &NodeID) -> (r: bool)
        ensures
            r == self@.queried.contains(id.id@),
    {
        let mut i: usize = 0;
        while i < self.queried.len()
            invariant
                i <= self.queried@.len(),
                forall|k: int| 0 <= k < i ==> self.queried@[k].id@ != id.id@,
            decreases self.queried@.len() - i,
        {
            if self.queried[i].same_as(id) {
                assert(self.queried@[i as int].id@ == id.id@);
                return true;
            }
            i = i + 1;
        }
        assert(!self@.queried.contains(id.id@)) by {
            if self@.queried.contains(id.id@) {
                let k = choose|k: int| 0 <= k < self.queried@.len() && #[trigger] self.queried@[k].id@ == id.id@;
            }
        }
        false
    }

    /// Picks the nearest node to the target not yet asked, marks it as asked
    /// and returns it; `None` when every node was asked.
    pub fn next_query(&mut self) -> (r: Option<(NodeID, PeerAddr)>)
        requires
            old(self).wf(),
        ensures
            final(self).wf(),
            final(self)@ == after_pick(old(self)@),
            r == picked(old(self)@),
    {
        let ghost l = self@;
        let mut best: Option<usize> = None;
        let mut best_key: (u128, u128) = (0, 0);
        let mut i: usize = 0;
        while i < self.shortlist.len()
            invariant
                l == self@,
                i <= l.shortlist.len(),
                best == (match nearest_among(l, i as nat) {
                    None => None::<usize>,
                    Some(m) => Some(m as usize),
                }),
                best matches Some(m) ==> m < i && best_key == distance_key(l.target.id@, l.shortlist[m as int].0.id@),
            decreases l.shortlist.len() - i,
        {
            proof {
                lemma_nearest_among(l, i as nat);
            }
            let e = self.shortlist[i];
            if !self.was_queried(&e.0) {
                let k = distance_key_of(&self.target, &e.0);
                match best {
                    None => {
                        best = Some(i);
                        best_key = k;
                    },
                    Some(_) => {
                        if key_lt(k, best_key) {
                            best = Some(i);
                            best_key = k;
                        }
                    },
                }
            }
            i = i + 1;
        }
        proof {
            lemma_nearest_among(l, l.shortlist.len());
        }
        match best {
            None => None,
            Some(m) => {
                let e = self.shortlist[m];
                let ghost q = self.queried@;
                self.queried.push(e.0);
                proof {
                    assert(id_set(self.queried@) =~= id_set(q).insert(e.0.id@)) by {
                        assert forall|x: Seq<u8>| id_set(self.queried@).contains(x) implies id_set(q).insert(e.0.id@).contains(x) by {
                            let k = choose|k: int| 0 <= k < self.queried@.len() && #[trigger] self.queried@[k].id@ == x;
                            if k < q.len() {
                                assert(q[k] == self.queried@[k]);
                            }
                        }
                        assert forall|x: Seq<u8>| id_set(q).insert(e.0.id@).contains(x) implies id_set(self.queried@).contains(x) by {
                            if x == e.0.id@ {
                                assert(self.queried@[q.len() as int].id@ == x);
                            } else {
                                let k = choose|k: int| 0 <= k < q.len() && #[trigger] q[k].id@ == x;
                                assert(self.queried@[k] == q[k]);
                            }
                        }
                    }
                    assert forall|a: int, b: int| 0 <= a < b < self.queried@.len() implies #[trigger] self.queried@[a].id@ != #[trigger] self.queried@[b].id@ by {
                        if b == q.len() {
                            assert(self.queried@[a] == q[a]);
                            assert(!id_set(q).contains(e.0.id@));
                            if q[a].id@ == e.0.id@ {
                                assert(id_set(q).contains(q[a].id@));
                            }
                        } else {
                            assert(self.queried@[a] == q[a] && self.queried@[b] == q[b]);
                        }
                    }
                    assert(self@ =~= after_pick(l));
                }
                Some(e)
            },
        }
    }
}

pub struct DhtClient {
    pub id: NodeID,
    pending: Option<PendingLookup>,
}

impl DhtClient {
    /// The lookup under way, if one was started.
    pub closed spec fn lookup(&self) -> Option<LookupView> {
        match self.pending {
            Some(p) => Some(p@),
            None => None,
        }
    }

    pub closed spec fn wf(&self) -> bool {
        self.pending matches Some(p) ==> p.wf()
    }

    /// This node's ID.
    pub closed spec fn node_id(&self) -> NodeID {
        self.id
    }

    pub fn new(id: NodeID) -> (r: Self)
        ensures
            r.wf(),
            r.node_id() == id,
            r.lookup() is None,
    {
        DhtClient { id, pending: None }
    }

    /// Bootstraps into the DHT: the seeds' IDs are unknown, so each gets the
    /// all-zero ID, and the first seed is asked for the nodes nearest to us.
    pub fn start_join(&mut self, seeds: &[PeerAddr], _routing: &mut RoutingTable) -> (r: Option<(DhtOperation, PeerAddr)>)
        ensures
            final(self).wf(),
            final(self).node_id() == old(self).node_id(),
            ({
                let l0 = LookupView {
                    target: old(self).node_id(),
                    find_value_key: None,
                    shortlist: seeds@.map_values(|a: PeerAddr| (unknown_id(), a)),
                    queried: Set::empty(),
                    found_value: None,
                };
                &&& final(self).lookup() == Some(after_pick(l0))
                &&& sends_pick(l0, DhtOpView::FindNode { sender_id: old(self).node_id().id@, target_id: old(self).node_id().id@ }, r)
            }),
    {
        let mut shortlist: Vec<(NodeID, PeerAddr)> = Vec::new();
        let mut i: usize = 0;
        while i < seeds.len()
            invariant
                i <= seeds@.len(),
                shortlist@ == seeds@.take(i as int).map_values(|a: PeerAddr| (unknown_id(), a)),
            decreases seeds@.len() - i,
        {
            shortlist.push((NodeID { id: [0u8; 32] }, seeds[i]));
            proof {
                assert(seeds@.take(i + 1).map_values(|a: PeerAddr| (unknown_id(), a))
                    =~= seeds@.take(i as int).map_values(|a: PeerAddr| (unknown_id(), a)).push((unknown_id(), seeds@[i as int])));
            }
            i = i + 1;
        }
        assert(seeds@.take(seeds@.len() as int) =~= seeds@);
        let mut pending = PendingLookup {
            target: self.id,
            find_value_key: None,
            shortlist,
            queried: Vec::new(),
            found_value: None,
        };
        assert(pending@.queried =~= Set::empty());
        let next = pending.next_query();
        self.pending = Some(pending);
        match next {
            Some((_id, addr)) => Some((DhtOperation::FindNode { sender_id: self.id, target_id: self.id }, addr)),
            None => None,
        }
    }

    /// Starts an iterative FIND_NODE for `target`, from the nearest nodes the
    /// routing table knows.
    pub fn start_lookup_node(&mut self, target: NodeID, routing: &RoutingTable) -> (r: Option<(DhtOperation, PeerAddr)>)
        requires
            routing.wf(),
        ensures
            final(self).wf(),
            final(self).node_id() == old(self).node_id(),
            exists|s: Seq<(NodeID, PeerAddr)>| #[trigger] closest_answer(routing@, target.id@, K as nat, s) && ({
                let l0 = LookupView { target, find_value_key: None, shortlist: s, queried: Set::empty(), found_value: None };
                &&& final(self).lookup() == Some(after_pick(l0))
                &&& sends_pick(l0, DhtOpView::FindNode { sender_id: old(self).node_id().id@, target_id: target.id@ }, r)
            }),
    {
        let shortlist = routing.closest_nodes(&target, K);
        let mut pending = PendingLookup { target, find_value_key: None, shortlist, queried: Vec::new(), found_value: None };
        assert(pending@.queried =~= Set::empty());
        let ghost l0 = pending@;
        let next = pending.next_query();
        self.pending = Some(pending);
        let r = match next {
            Some((_, addr)) => Some((DhtOperation::FindNode { sender_id: self.id, target_id: target }, addr)),
            None => None,
        };
        assert(closest_answer(routing@, target.id@, K as nat, l0.shortlist));
        r
    }

    /// Starts an iterative FIND_VALUE for `key`.
    pub fn start_find_value(&mut self, key: [u8; 32], routing: &RoutingTable) -> (r: Option<(DhtOperation, PeerAddr)>)
        requires
            routing.wf(),
        ensures
            final(self).wf(),
            final(self).node_id() == old(self).node_id(),
            exists|s: Seq<(NodeID, PeerAddr)>| #[trigger] closest_answer(routing@, key@, K as nat, s) && ({
                let l0 = LookupView { target: NodeID { id: key }, find_value_key: Some(key), shortlist: s, queried: Set::empty(), found_value: None };
                &&& final(self).lookup() == Some(after_pick(l0))
                &&& sends_pick(l0, DhtOpView::FindValue { sender_id: old(self).node_id().id@, key: key@ }, r)
            }),
    {
        let target = NodeID { id: key };
        let shortlist = routing.closest_nodes(&target, K);
        let mut pending = PendingLookup { target, find_value_key: Some(key), shortlist, queried: Vec::new(), found_value: None };
        assert(pending@.queried =~= Set::empty());
        let ghost l0 = pending@;
        let next = pending.next_query();
        self.pending = Some(pending);
        let r = match next {
            Some((_, addr)) => Some((DhtOperation::FindValue { sender_id: self.id, key }, addr)),
            None => None,
        };
        assert(closest_answer(routing@, key@, K as nat, l0.shortlist));
        r
    }

    /// Feeds a response into the lookup under way, with the nodes it carries
    /// seen at `now`. Returns the next query, if any, and whether the lookup
    /// is over.
    pub fn handle_response_at(&mut self, op: DhtOperation, routing: &mut RoutingTable, now: u64) -> (r: (Option<(DhtOperation, PeerAddr)>, bool))
        requires
            old(self).wf(),
            old(routing).wf(),
        ensures
            final(self).wf(),
            final(routing).wf(),
            final(self).node_id() == old(self).node_id(),
            response_outcome(old(self).node_id(), old(self).lookup(), op, old(routing)@, now, final(self).lookup(), final(routing)@, r),
    {
        let pending = match self.pending.take() {
            Some(p) => p,
            None => return (None, true),
        };
        let ghost l = pending@;
        let ghost t0 = routing@;
        let ghost rn = response_nodes(op);
        let (nodes, found): (Vec<(NodeID, PeerAddr)>, Option<Vec<u8>>) = match op {
            DhtOperation::Nodes { nodes, .. } => (nodes, None),
            DhtOperation::Value { value, closest_nodes, .. } => (closest_nodes, value),
            _ => (Vec::new(), None),
        };
        assert(nodes@ == rn);
        let PendingLookup { target, find_value_key, shortlist, queried, found_value } = pending;
        let mut shortlist = shortlist;
        let mut i: usize = 0;
        while i < nodes.len()
            invariant
                i <= nodes@.len(),
                routing.wf(),
                routing@ == add_all(t0, nodes@.take(i as int), now),
                shortlist@ == l.shortlist + nodes@.take(i as int),
            decreases nodes@.len() - i,
        {
            let (id, addr) = nodes[i];
            routing.add_node_at(id, addr, now);
            shortlist.push((id, addr));
            proof {
                assert(nodes@.take(i + 1).drop_last() =~= nodes@.take(i as int));
                assert(nodes@.take(i + 1) =~= nodes@.take(i as int).push((id, addr)));
            }
            i = i + 1;
        }
        assert(nodes@.take(nodes@.len() as int) =~= nodes@);
        let ghost l1 = LookupView { shortlist: l.shortlist + rn, ..l };
        match found {
            Some(v) => {
                let pending = PendingLookup { target, find_value_key, shortlist, queried, found_value: Some(v) };
                self.pending = Some(pending);
                return (None, true);
            },
            None => {},
        }
        let mut sorted = sort_by_distance(&target, shortlist);
        let ghost s = sorted@;
        if sorted.len() > K {
            sorted.truncate(K);
            assert(sorted@ =~= s.take(K as int));
        }
        let mut pending = PendingLookup { target, find_value_key, shortlist: sorted, queried, found_value };
        let ghost l2 = pending@;
        assert(l2 == LookupView { shortlist: if s.len() > K { s.take(K as int) } else { s }, ..l1 });
        let next = pending.next_query();
        let r = match next {
            Some((_, addr)) => {
                let query = match pending.find_value_key {
                    Some(key) => DhtOperation::FindValue { sender_id: self.id, key },
                    None => DhtOperation::FindNode { sender_id: self.id, target_id: pending.target },
                };
                (Some((query, addr)), false)
            },
            None => (None, true),
        };
        self.pending = Some(pending);
        assert(continue_lookup(self.id, l1, s, after_pick(l2), r));
        r
    }

    /// `handle_response_at` with the nodes seen now, by the wall clock.
    pub fn handle_response(&mut self, op: DhtOperation, routing: &mut RoutingTable) -> (r: (Option<(DhtOperation, PeerAddr)>, bool))
        requires
            old(self).wf(),
            old(routing).wf(),
        ensures
            final(self).wf(),
            final(routing).wf(),
            final(self).node_id() == old(self).node_id(),
            exists|now: u64| #[trigger] response_outcome(old(self).node_id(), old(self).lookup(), op, old(routing)@, now, final(self).lookup(), final(routing)@, r),
    {
        let now = now_millis();
        let ghost before = *self;
        let ghost t = routing@;
        let ghost op_copy = op;
        let r = self.handle_response_at(op, routing, now);
        assert(response_outcome(before.id, before.lookup(), op_copy, t, now, self.lookup(), routing@, r));
        r
    }

    /// The lookup under way, if any: its shortlist, the nodes asked, and the
    /// value found, if one was.
    pub fn result(&self) -> (r: Option<&PendingLookup>)
        ensures
            match r {
                None => self.lookup() is None,
                Some(p) => self.lookup() == Some(p@),
            },
    {
        match &self.pending {
            Some(p) => Some(p),
            None => None,
        }
    }
}

} // verus!
