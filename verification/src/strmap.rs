//! A map keyed by strings, kept as a list of entries in insertion order.
//!
//! Its model is a `Map` from character sequences to values; the order of the
//! entries is visible too, as `pairs`, for the operations that walk the map.
use vstd::prelude::*;

use crate::text::str_eq;

verus! {

/// A map from strings to values; no key occurs twice.
pub struct StrMap<V> {
    entries: Vec<(String, V)>,
}

/// The keys of a list of pairs are pairwise distinct.
pub open spec fn unique_keys<V>(p: Seq<(Seq<char>, V)>) -> bool {
    forall|i: int, j: int| 0 <= i < p.len() && 0 <= j < p.len() && i != j ==> p[i].0 != p[j].0
}

/// `k` is a key of one of the pairs.
pub open spec fn has_key<V>(p: Seq<(Seq<char>, V)>, k: Seq<char>) -> bool {
    exists|i: int| 0 <= i < p.len() && p[i].0 == k
}

/// The position of the pair with key `k`.
pub open spec fn key_index<V>(p: Seq<(Seq<char>, V)>, k: Seq<char>) -> int {
    choose|i: int| 0 <= i < p.len() && p[i].0 == k
}

/// The map that a list of pairs with distinct keys describes.
pub open spec fn pairs_map<V>(p: Seq<(Seq<char>, V)>) -> Map<Seq<char>, V> {
    Map::new(|k: Seq<char>| has_key(p, k), |k: Seq<char>| p[key_index(p, k)].1)
}

/// With distinct keys, the pair at `i` is the one the map gives for its key.
pub proof fn lemma_key_index<V>(p: Seq<(Seq<char>, V)>, i: int)
    requires
        unique_keys(p),
        0 <= i < p.len(),
    ensures
        key_index(p, p[i].0) == i,
        has_key(p, p[i].0),
        pairs_map(p).contains_key(p[i].0),
        pairs_map(p)[p[i].0] == p[i].1,
{
    assert(has_key(p, p[i].0));
}

/// Replacing the value of the pair at `i` updates the map at its key.
pub proof fn lemma_update_value<V>(p: Seq<(Seq<char>, V)>, i: int, v: V)
    requires
        unique_keys(p),
        0 <= i < p.len(),
    ensures
        unique_keys(p.update(i, (p[i].0, v))),
        pairs_map(p.update(i, (p[i].0, v))) == pairs_map(p).insert(p[i].0, v),
{
    let q = p.update(i, (p[i].0, v));
    assert(unique_keys(q));
    assert forall|k: Seq<char>| #[trigger] has_key(q, k) == has_key(p, k) by {
        if has_key(p, k) {
            let j = key_index(p, k);
            assert(q[j].0 == k);
        }
        if has_key(q, k) {
            let j = key_index(q, k);
            assert(p[j].0 == k);
        }
    }
    assert forall|k: Seq<char>| has_key(q, k) implies #[trigger] q[key_index(q, k)].1 == (if k
        == p[i].0 {
        v
    } else {
        p[key_index(p, k)].1
    }) by {
        let j = key_index(q, k);
        let jp = key_index(p, k);
        assert(q[j].0 == k);
        assert(p[jp].0 == k);
        assert(p[j].0 == k);
        assert(j == jp);
    }
    assert(pairs_map(q) =~= pairs_map(p).insert(p[i].0, v));
}

/// Appending a pair with a new key inserts it into the map.
pub proof fn lemma_push_new<V>(p: Seq<(Seq<char>, V)>, k: Seq<char>, v: V)
    requires
        unique_keys(p),
        !has_key(p, k),
    ensures
        unique_keys(p.push((k, v))),
        pairs_map(p.push((k, v))) == pairs_map(p).insert(k, v),
{
    let q = p.push((k, v));
    assert forall|i: int, j: int| 0 <= i < q.len() && 0 <= j < q.len() && i != j implies q[i].0
        != q[j].0 by {
        if i < p.len() && j < p.len() {
            assert(q[i] == p[i]);
            assert(q[j] == p[j]);
        } else if i < p.len() {
            assert(q[i] == p[i]);
        } else if j < p.len() {
            assert(q[j] == p[j]);
        }
    }
    assert forall|kk: Seq<char>| #[trigger] has_key(q, kk) == (has_key(p, kk) || kk == k) by {
        if has_key(p, kk) {
            let j = key_index(p, kk);
            assert(q[j] == p[j]);
        }
        if has_key(q, kk) && kk != k {
            let j = key_index(q, kk);
            assert(j < p.len());
            assert(q[j] == p[j]);
        }
        if kk == k {
            assert(q[p.len() as int].0 == k);
        }
    }
    assert forall|kk: Seq<char>| has_key(q, kk) implies #[trigger] q[key_index(q, kk)].1 == (if kk
        == k {
        v
    } else {
        p[key_index(p, kk)].1
    }) by {
        let j = key_index(q, kk);
        if kk == k {
            assert(q[p.len() as int].0 == k);
            if j < p.len() {
                assert(q[j] == p[j]);
                assert(has_key(p, k));
            }
        } else {
            let jp = key_index(p, kk);
            assert(q[jp] == p[jp]);
            assert(j < p.len());
            assert(q[j] == p[j]);
        }
    }
    assert(pairs_map(q) =~= pairs_map(p).insert(k, v));
}

/// Removing the pair at `i` removes its key from the map.
pub proof fn lemma_remove_at<V>(p: Seq<(Seq<char>, V)>, i: int)
    requires
        unique_keys(p),
        0 <= i < p.len(),
    ensures
        unique_keys(p.remove(i)),
        pairs_map(p.remove(i)) == pairs_map(p).remove(p[i].0),
{
    let q = p.remove(i);
    let k = p[i].0;
    assert forall|a: int, b: int| 0 <= a < q.len() && 0 <= b < q.len() && a != b implies q[a].0
        != q[b].0 by {
        let pa = if a < i {
            a
        } else {
            a + 1
        };
        let pb = if b < i {
            b
        } else {
            b + 1
        };
        assert(q[a] == p[pa]);
        assert(q[b] == p[pb]);
    }
    assert forall|kk: Seq<char>| #[trigger] has_key(q, kk) == (has_key(p, kk) && kk != k) by {
        if has_key(q, kk) {
            let j = key_index(q, kk);
            let pj = if j < i {
                j
            } else {
                j + 1
            };
            assert(q[j] == p[pj]);
        }
        if has_key(p, kk) && kk != k {
            let j = key_index(p, kk);
            assert(j != i);
            let qj = if j < i {
                j
            } else {
                j - 1
            };
            assert(q[qj] == p[j]);
        }
    }
    assert forall|kk: Seq<char>| has_key(q, kk) implies #[trigger] q[key_index(q, kk)].1 == p[key_index(
        p,
        kk,
    )].1 by {
        let j = key_index(q, kk);
        let pj = if j < i {
            j
        } else {
            j + 1
        };
        assert(q[j] == p[pj]);
        lemma_key_index(p, pj);
    }
    assert(pairs_map(q) =~= pairs_map(p).remove(k));
}

impl<V> StrMap<V> {
    /// The entries, in order, with their keys as character sequences.
    pub closed spec fn pairs(&self) -> Seq<(Seq<char>, V)> {
        self.entries@.map_values(|e: (String, V)| (e.0@, e.1))
    }

    #[verifier::type_invariant]
    spec fn keys_distinct(&self) -> bool {
        unique_keys(self.pairs())
    }

    /// An empty map.
    pub fn new() -> (m: Self)
        ensures
            m.pairs() == Seq::<(Seq<char>, V)>::empty(),
            m@ == Map::<Seq<char>, V>::empty(),
    {
        let m = StrMap { entries: Vec::new() };
        assert(m.pairs() =~= Seq::<(Seq<char>, V)>::empty());
        assert(m@ =~= Map::<Seq<char>, V>::empty());
        m
    }

    /// The number of entries (no two of which have the same key).
    pub fn len(&self) -> (n: usize)
        ensures
            n == self.pairs().len(),
            unique_keys(self.pairs()),
    {
        proof {
            use_type_invariant(self);
        }
        self.entries.len()
    }

    /// Whether the map is empty.
    pub fn is_empty(&self) -> (b: bool)
        ensures
            b == (self.pairs().len() == 0),
            b == (self@ == Map::<Seq<char>, V>::empty()),
    {
        proof {
            if self.pairs().len() > 0 {
                assert(self@.contains_key(self.pairs()[0].0));
            } else {
                assert(self@ =~= Map::<Seq<char>, V>::empty());
            }
        }
        self.entries.len() == 0
    }

    /// The key of the entry at `i`.
    pub fn key_at(&self, i: usize) -> (k: &String)
        requires
            i < self.pairs().len(),
        ensures
            k@ == self.pairs()[i as int].0,
    {
        &self.entries[i].0
    }

    /// The value of the entry at `i`.
    pub fn value_at(&self, i: usize) -> (v: &V)
        requires
            i < self.pairs().len(),
        ensures
            *v == self.pairs()[i as int].1,
    {
        &self.entries[i].1
    }

    /// The position of the entry with key `k`.
    pub fn find(&self, k: &str) -> (r: Option<usize>)
        ensures
            match r {
                Some(i) => i < self.pairs().len() && self.pairs()[i as int].0 == k@ && key_index(
                    self.pairs(),
                    k@,
                ) == i && self@.contains_key(k@),
                None => !has_key(self.pairs(), k@) && !self@.contains_key(k@),
            },
    {
        proof {
            use_type_invariant(self);
        }
        let mut i: usize = 0;
        while i < self.entries.len()
            invariant
                i <= self.entries.len(),
                self.pairs().len() == self.entries.len(),
                unique_keys(self.pairs()),
                forall|j: int| 0 <= j < i ==> self.pairs()[j].0 != k@,
            decreases self.entries.len() - i,
        {
            if str_eq(self.entries[i].0.as_str(), k) {
                proof {
                    lemma_key_index(self.pairs(), i as int);
                }
                return Some(i);
            }
            i = i + 1;
        }
        None
    }

    /// Whether `k` is a key.
    pub fn contains_key(&self, k: &str) -> (b: bool)
        ensures
            b == self@.contains_key(k@),
    {
        self.find(k).is_some()
    }

    /// The value for `k`.
    pub fn get(&self, k: &str) -> (r: Option<&V>)
        ensures
            match r {
                Some(v) => self@.contains_key(k@) && *v == self@[k@],
                None => !self@.contains_key(k@),
            },
    {
        match self.find(k) {
            Some(i) => Some(&self.entries[i].1),
            None => None,
        }
    }

    /// Sets the value for `k`, keeping the position of an existing entry and
    /// appending a new one otherwise.
    pub fn insert(&mut self, k: String, v: V)
        ensures
            final(self)@ == old(self)@.insert(k@, v),
            has_key(old(self).pairs(), k@) ==> final(self).pairs() == old(self).pairs().update(
                key_index(old(self).pairs(), k@),
                (k@, v),
            ),
            !has_key(old(self).pairs(), k@) ==> final(self).pairs() == old(self).pairs().push(
                (k@, v),
            ),
    {
        proof {
            use_type_invariant(&*self);
        }
        let ghost p = self.pairs();
        let found = self.find(k.as_str());
        let mut es: Vec<(String, V)> = Vec::new();
        std::mem::swap(&mut es, &mut self.entries);
        match found {
            Some(i) => {
                let ghost ko = es@[i as int].0;
                es.set(i, (k, v));
                proof {
                    lemma_update_value(p, i as int, v);
                    assert(es@.map_values(|e: (String, V)| (e.0@, e.1)) =~= p.update(
                        i as int,
                        (p[i as int].0, v),
                    ));
                }
            },
            None => {
                let ghost kk = k@;
                es.push((k, v));
                proof {
                    lemma_push_new(p, kk, v);
                    assert(es@.map_values(|e: (String, V)| (e.0@, e.1)) =~= p.push((kk, v)));
                }
            },
        }
        self.entries = es;
    }

    /// Replaces the value of the entry at `i`.
    pub fn set_value_at(&mut self, i: usize, v: V)
        requires
            i < old(self).pairs().len(),
        ensures
            final(self).pairs() == old(self).pairs().update(i as int, (old(self).pairs()[i as int].0, v)),
            final(self)@ == old(self)@.insert(old(self).pairs()[i as int].0, v),
    {
        proof {
            use_type_invariant(&*self);
        }
        let ghost p = self.pairs();
        let mut es: Vec<(String, V)> = Vec::new();
        std::mem::swap(&mut es, &mut self.entries);
        let (k, _old_v) = es.remove(i);
        let ghost after_remove = es@;
        es.insert(i, (k, v));
        proof {
            lemma_update_value(p, i as int, v);
            assert(es@ =~= after_remove.insert(i as int, (es@[i as int].0, v)));
            assert(es@.map_values(|e: (String, V)| (e.0@, e.1)) =~= p.update(i as int, (p[i as int].0, v)));
        }
        self.entries = es;
    }

    /// Removes the entry at `i`.
    pub fn remove_at(&mut self, i: usize)
        requires
            i < old(self).pairs().len(),
        ensures
            final(self).pairs() == old(self).pairs().remove(i as int),
            final(self)@ == old(self)@.remove(old(self).pairs()[i as int].0),
    {
        proof {
            use_type_invariant(&*self);
        }
        let ghost p = self.pairs();
        let mut es: Vec<(String, V)> = Vec::new();
        std::mem::swap(&mut es, &mut self.entries);
        let _removed = es.remove(i);
        proof {
            lemma_remove_at(p, i as int);
            assert(es@.map_values(|e: (String, V)| (e.0@, e.1)) =~= p.remove(i as int));
        }
        self.entries = es;
    }

    /// Removes the entry for `k`, if any.
    pub fn remove(&mut self, k: &str)
        ensures
            final(self)@ == old(self)@.remove(k@),
            has_key(old(self).pairs(), k@) ==> final(self).pairs() == old(self).pairs().remove(
                key_index(old(self).pairs(), k@),
            ),
            !has_key(old(self).pairs(), k@) ==> final(self).pairs() == old(self).pairs(),
    {
        match self.find(k) {
            Some(i) => {
                self.remove_at(i);
            },
            None => {
                assert(old(self)@.remove(k@) =~= old(self)@);
            },
        }
    }
}

impl<V> View for StrMap<V> {
    type V = Map<Seq<char>, V>;

    open spec fn view(&self) -> Map<Seq<char>, V> {
        pairs_map(self.pairs())
    }
}

} // verus!
