//! Association lists: sequences of key-value pairs in which a later
//! insertion for a key replaces the earlier value in place.

use vstd::prelude::*;

verus! {

/// Insertion into an association list: the value of a listed key is
/// replaced in place, a new key goes to the end.
pub open spec fn assoc_insert<K, V>(s: Seq<(K, V)>, k: K, v: V) -> Seq<(K, V)> {
    if exists|i: int| 0 <= i < s.len() && #[trigger] s[i].0 == k {
        let i = choose|i: int| 0 <= i < s.len() && #[trigger] s[i].0 == k;
        s.update(i, (k, v))
    } else {
        s.push((k, v))
    }
}

/// Inserting each pair in order into an empty list.
pub open spec fn assoc_from<K, V>(ps: Seq<(K, V)>) -> Seq<(K, V)>
    decreases ps.len(),
{
    if ps.len() == 0 {
        Seq::empty()
    } else {
        let p = ps.last();
        assoc_insert(assoc_from(ps.drop_last()), p.0, p.1)
    }
}

pub open spec fn keys_distinct<K, V>(s: Seq<(K, V)>) -> bool {
    forall|i: int, j: int| 0 <= i < j < s.len() ==> #[trigger] s[i].0 != #[trigger] s[j].0
}

/// Inserting keeps the keys distinct, and replaces a listed key in place.
pub proof fn lemma_assoc_insert<K, V>(s: Seq<(K, V)>, k: K, v: V)
    requires
        keys_distinct(s),
    ensures
        keys_distinct(assoc_insert(s, k, v)),
        forall|j: int| 0 <= j < s.len() && #[trigger] s[j].0 == k ==> assoc_insert(s, k, v) == s.update(j, (k, v)),
{
    if exists|i: int| 0 <= i < s.len() && #[trigger] s[i].0 == k {
        let i = choose|i: int| 0 <= i < s.len() && #[trigger] s[i].0 == k;
        let u = s.update(i, (k, v));
        assert forall|a: int, b: int| 0 <= a < b < u.len() implies #[trigger] u[a].0 != #[trigger] u[b].0 by {
            assert(u[a].0 == s[a].0 && u[b].0 == s[b].0);
        }
        assert forall|j: int| 0 <= j < s.len() && #[trigger] s[j].0 == k implies assoc_insert(s, k, v) == s.update(j, (k, v)) by {
            if j != i {
                if j < i {
                    assert(s[j].0 != s[i].0);
                } else {
                    assert(s[i].0 != s[j].0);
                }
            }
        }
    } else {
        let u = s.push((k, v));
        assert forall|a: int, b: int| 0 <= a < b < u.len() implies #[trigger] u[a].0 != #[trigger] u[b].0 by {
            if b < s.len() {
                assert(u[a] == s[a] && u[b] == s[b]);
            } else {
                assert(u[a] == s[a]);
            }
        }
    }
}

/// A list built by insertions has distinct keys.
pub proof fn lemma_assoc_from_distinct<K, V>(ps: Seq<(K, V)>)
    ensures
        keys_distinct(assoc_from(ps)),
    decreases ps.len(),
{
    if ps.len() > 0 {
        lemma_assoc_from_distinct(ps.drop_last());
        lemma_assoc_insert(assoc_from(ps.drop_last()), ps.last().0, ps.last().1);
    }
}

/// Rebuilding a list whose keys are distinct gives the same list.
pub proof fn lemma_assoc_from_distinct_list<K, V>(s: Seq<(K, V)>)
    requires
        keys_distinct(s),
    ensures
        assoc_from(s) == s,
    decreases s.len(),
{
    if s.len() > 0 {
        let p = s.drop_last();
        assert(keys_distinct(p)) by {
            assert forall|a: int, b: int| 0 <= a < b < p.len() implies #[trigger] p[a].0 != #[trigger] p[b].0 by {
                assert(p[a] == s[a] && p[b] == s[b]);
            }
        }
        lemma_assoc_from_distinct_list(p);
        assert(!(exists|i: int| 0 <= i < p.len() && #[trigger] p[i].0 == s.last().0)) by {
            if exists|i: int| 0 <= i < p.len() && #[trigger] p[i].0 == s.last().0 {
                let i = choose|i: int| 0 <= i < p.len() && #[trigger] p[i].0 == s.last().0;
                assert(s[i] == p[i]);
            }
        }
        assert(p.push(s.last()) =~= s);
    }
}


/// The value listed for `k`, if any.
pub open spec fn assoc_get<K, V>(s: Seq<(K, V)>, k: K) -> Option<V> {
    if exists|i: int| 0 <= i < s.len() && #[trigger] s[i].0 == k {
        let i = choose|i: int| 0 <= i < s.len() && #[trigger] s[i].0 == k;
        Some(s[i].1)
    } else {
        None
    }
}

/// In a list with distinct keys, the value of a key is the one at its position.
pub proof fn lemma_assoc_get<K, V>(s: Seq<(K, V)>, j: int)
    requires
        keys_distinct(s),
        0 <= j < s.len(),
    ensures
        assoc_get(s, s[j].0) == Some(s[j].1),
{
    let i = choose|i: int| 0 <= i < s.len() && #[trigger] s[i].0 == s[j].0;
    if i != j {
        if i < j {
            assert(s[i].0 != s[j].0);
        } else {
            assert(s[j].0 != s[i].0);
        }
    }
}

/// What an insertion is read back as: the inserted value for its key, the
/// old value for every other key.
pub proof fn lemma_assoc_insert_get<K, V>(s: Seq<(K, V)>, k: K, v: V, k2: K)
    requires
        keys_distinct(s),
    ensures
        assoc_get(assoc_insert(s, k, v), k2) == if k2 == k { Some(v) } else { assoc_get(s, k2) },
{
    lemma_assoc_insert(s, k, v);
    let u = assoc_insert(s, k, v);
    if exists|i: int| 0 <= i < s.len() && #[trigger] s[i].0 == k {
        let i = choose|i: int| 0 <= i < s.len() && #[trigger] s[i].0 == k;
        assert(u == s.update(i, (k, v)));
        if k2 == k {
            lemma_assoc_get(u, i);
        } else {
            if exists|j: int| 0 <= j < s.len() && #[trigger] s[j].0 == k2 {
                let j = choose|j: int| 0 <= j < s.len() && #[trigger] s[j].0 == k2;
                lemma_assoc_get(s, j);
                lemma_assoc_get(u, j);
            } else {
                assert(!(exists|j: int| 0 <= j < u.len() && #[trigger] u[j].0 == k2)) by {
                    if exists|j: int| 0 <= j < u.len() && #[trigger] u[j].0 == k2 {
                        let j = choose|j: int| 0 <= j < u.len() && #[trigger] u[j].0 == k2;
                        assert(s[j].0 == u[j].0);
                    }
                }
            }
        }
    } else {
        assert(u == s.push((k, v)));
        if k2 == k {
            lemma_assoc_get(u, s.len() as int);
        } else {
            if exists|j: int| 0 <= j < s.len() && #[trigger] s[j].0 == k2 {
                let j = choose|j: int| 0 <= j < s.len() && #[trigger] s[j].0 == k2;
                lemma_assoc_get(s, j);
                assert(u[j] == s[j]);
                lemma_assoc_get(u, j);
            } else {
                assert(!(exists|j: int| 0 <= j < u.len() && #[trigger] u[j].0 == k2)) by {
                    if exists|j: int| 0 <= j < u.len() && #[trigger] u[j].0 == k2 {
                        let j = choose|j: int| 0 <= j < u.len() && #[trigger] u[j].0 == k2;
                        if j < s.len() {
                            assert(s[j] == u[j]);
                        }
                    }
                }
            }
        }
    }
}

/// Keeping some pairs of a list with distinct keys keeps the keys distinct.
pub proof fn lemma_filter_keys_distinct<K, V>(s: Seq<(K, V)>, p: spec_fn((K, V)) -> bool)
    requires
        keys_distinct(s),
    ensures
        keys_distinct(s.filter(p)),
        forall|i: int| 0 <= i < s.filter(p).len() ==> s.contains(#[trigger] s.filter(p)[i]),
    decreases s.len(),
{
    reveal(Seq::filter);
    if s.len() > 0 {
        let rest = s.drop_last();
        assert(keys_distinct(rest)) by {
            assert forall|a: int, b: int| 0 <= a < b < rest.len() implies #[trigger] rest[a].0 != #[trigger] rest[b].0 by {
                assert(rest[a] == s[a] && rest[b] == s[b]);
            }
        }
        lemma_filter_keys_distinct(rest, p);
        let f = s.filter(p);
        let fr = rest.filter(p);
        assert forall|i: int| 0 <= i < f.len() implies s.contains(#[trigger] f[i]) by {
            if i < fr.len() {
                assert(f[i] == fr[i]);
                let k = choose|k: int| 0 <= k < rest.len() && rest[k] == fr[i];
                assert(s[k] == f[i]);
            } else {
                assert(s[s.len() - 1] == f[i]);
            }
        }
        assert forall|a: int, b: int| 0 <= a < b < f.len() implies #[trigger] f[a].0 != #[trigger] f[b].0 by {
            if b < fr.len() {
                assert(f[a] == fr[a] && f[b] == fr[b]);
            } else {
                assert(f[a] == fr[a]);
                let k = choose|k: int| 0 <= k < rest.len() && rest[k] == fr[a];
                assert(s[k] == rest[k]);
                assert(s[k].0 != s[s.len() - 1].0);
            }
        }
    }
}

/// Keeping what every element satisfies keeps the whole sequence.
pub proof fn lemma_filter_all<A>(s: Seq<A>, p: spec_fn(A) -> bool)
    requires
        forall|i: int| 0 <= i < s.len() ==> p(#[trigger] s[i]),
    ensures
        s.filter(p) == s,
    decreases s.len(),
{
    reveal(Seq::filter);
    if s.len() > 0 {
        let q = s.drop_last();
        assert forall|i: int| 0 <= i < q.len() implies p(#[trigger] q[i]) by {
            assert(q[i] == s[i]);
        }
        lemma_filter_all(q, p);
        assert(q.push(s.last()) =~= s);
    }
}

/// Keeping what every element but the one at `k` satisfies removes that one.
pub proof fn lemma_filter_remove_one<A>(s: Seq<A>, k: int, p: spec_fn(A) -> bool)
    requires
        0 <= k < s.len(),
        !p(s[k]),
        forall|i: int| 0 <= i < s.len() && i != k ==> p(#[trigger] s[i]),
    ensures
        s.filter(p) == s.remove(k),
    decreases s.len(),
{
    reveal(Seq::filter);
    let q = s.drop_last();
    if k == s.len() - 1 {
        assert forall|i: int| 0 <= i < q.len() implies p(#[trigger] q[i]) by {
            assert(q[i] == s[i]);
        }
        lemma_filter_all(q, p);
        assert(s.remove(k) =~= q);
    } else {
        assert forall|i: int| 0 <= i < q.len() && i != k implies p(#[trigger] q[i]) by {
            assert(q[i] == s[i]);
        }
        assert(q[k] == s[k]);
        lemma_filter_remove_one(q, k, p);
        assert(p(s.last())) by {
            assert(s[s.len() - 1] == s.last());
        }
        assert(q.remove(k).push(s.last()) =~= s.remove(k));
    }
}

} // verus!
