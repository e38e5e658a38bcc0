//! Maps and sets keyed by text, held in key order.
//!
//! A `StrMap` keeps its entries sorted by key, each key once, so walking it
//! gives the keys in lexicographic order. Its model is that sorted sequence of
//! pairs; `map()` is the same content as a mathematical map.

use vstd::prelude::*;
use crate::model::Model;
use crate::text::{chars_of, lemma_text_order, relate, text_lt, Relation};

verus! {

broadcast use vstd::std_specs::vec::group_vec_axioms;

/// The keys rise strictly from pair to pair.
pub open spec fn sorted_keys<M>(p: Seq<(Seq<char>, M)>) -> bool {
    forall|i: int, j: int| 0 <= i < j < p.len() ==> text_lt(#[trigger] p[i].0, #[trigger] p[j].0)
}

/// Some pair has the key `k`.
pub open spec fn has_key<M>(p: Seq<(Seq<char>, M)>, k: Seq<char>) -> bool {
    exists|i: int| 0 <= i < p.len() && (#[trigger] p[i]).0 == k
}

/// The index of a pair with the key `k`.
pub open spec fn index_of_key<M>(p: Seq<(Seq<char>, M)>, k: Seq<char>) -> int {
    choose|i: int| 0 <= i < p.len() && (#[trigger] p[i]).0 == k
}

/// The map that a sequence of pairs stands for.
pub open spec fn pairs_map<M>(p: Seq<(Seq<char>, M)>) -> Map<Seq<char>, M> {
    Map::new(|k: Seq<char>| has_key(p, k), |k: Seq<char>| p[index_of_key(p, k)].1)
}

/// The keys of a sequence of pairs, in its order.
pub open spec fn pairs_keys<M>(p: Seq<(Seq<char>, M)>) -> Seq<Seq<char>> {
    Seq::new(p.len(), |i: int| p[i].0)
}

/// Where `k` stands, or would stand, among sorted pairs: after every smaller
/// key and before every greater one.
pub open spec fn slot_of<M>(p: Seq<(Seq<char>, M)>, k: Seq<char>, pos: int, found: bool) -> bool {
    &&& 0 <= pos <= p.len()
    &&& found ==> pos < p.len() && p[pos].0 == k
    &&& !found ==> !has_key(p, k)
    &&& forall|i: int| 0 <= i < pos ==> text_lt((#[trigger] p[i]).0, k)
    &&& forall|i: int| pos <= i < p.len() && !(found && i == pos) ==> text_lt(k, (#[trigger] p[i]).0)
}

/// In sorted pairs each key stands once, and the map holds exactly the pairs.
pub proof fn lemma_pairs_map<M>(p: Seq<(Seq<char>, M)>)
    requires
        sorted_keys(p),
    ensures
        forall|i: int, j: int| 0 <= i < p.len() && 0 <= j < p.len() && i != j ==> (#[trigger] p[i]).0
            != (#[trigger] p[j]).0,
        forall|i: int|
            0 <= i < p.len() ==> pairs_map(p).contains_key((#[trigger] p[i]).0) && pairs_map(p)[p[i].0]
                == p[i].1,
        forall|k: Seq<char>| pairs_map(p).contains_key(k) <==> has_key(p, k),
{
    assert forall|i: int, j: int| 0 <= i < p.len() && 0 <= j < p.len() && i != j implies (
    #[trigger] p[i]).0 != (#[trigger] p[j]).0 by {
        lemma_text_order(p[i].0, p[j].0, p[j].0);
        lemma_text_order(p[j].0, p[i].0, p[i].0);
    }
    assert forall|i: int| 0 <= i < p.len() implies pairs_map(p).contains_key((#[trigger] p[i]).0)
        && pairs_map(p)[p[i].0] == p[i].1 by {
        let k = p[i].0;
        assert(has_key(p, k));
        let j = index_of_key(p, k);
        assert(p[j].0 == k);
        assert(j == i);
    }
}

/// A new pair put in its slot keeps the order and adds to the map.
pub proof fn lemma_insert_pairs<M>(p: Seq<(Seq<char>, M)>, pos: int, k: Seq<char>, m: M)
    requires
        sorted_keys(p),
        slot_of(p, k, pos, false),
    ensures
        sorted_keys(p.insert(pos, (k, m))),
        pairs_map(p.insert(pos, (k, m))) == pairs_map(p).insert(k, m),
{
    let q = p.insert(pos, (k, m));
    assert forall|i: int, j: int| 0 <= i < j < q.len() implies text_lt(
        #[trigger] q[i].0,
        #[trigger] q[j].0,
    ) by {
        let oi = if i < pos {
            i
        } else {
            i - 1
        };
        let oj = if j < pos {
            j
        } else {
            j - 1
        };
        if i == pos {
            assert(q[j] == p[oj]);
        } else if j == pos {
            assert(q[i] == p[oi]);
        } else {
            assert(q[i] == p[oi]);
            assert(q[j] == p[oj]);
        }
    }
    lemma_pairs_map(p);
    lemma_pairs_map(q);
    assert forall|x: Seq<char>| pairs_map(q).contains_key(x) <==> pairs_map(p).insert(
        k,
        m,
    ).contains_key(x) by {
        if has_key(q, x) {
            let i = index_of_key(q, x);
            if i < pos {
                assert(q[i] == p[i]);
            } else if i > pos {
                assert(q[i] == p[i - 1]);
            }
        }
        if has_key(p, x) {
            let i = index_of_key(p, x);
            if i < pos {
                assert(q[i] == p[i]);
            } else {
                assert(q[i + 1] == p[i]);
            }
        }
        if x == k {
            assert(q[pos].0 == k);
        }
    }
    assert forall|x: Seq<char>| pairs_map(q).contains_key(x) implies pairs_map(q)[x] == pairs_map(
        p,
    ).insert(k, m)[x] by {
        let i = index_of_key(q, x);
        assert(q[i].0 == x);
        if i < pos {
            assert(q[i] == p[i]);
        } else if i > pos {
            assert(q[i] == p[i - 1]);
        }
    }
    assert(pairs_map(q) =~= pairs_map(p).insert(k, m));
}

/// A new value for a pair keeps the order and overwrites in the map.
pub proof fn lemma_update_pairs<M>(p: Seq<(Seq<char>, M)>, pos: int, m: M)
    requires
        sorted_keys(p),
        0 <= pos < p.len(),
    ensures
        sorted_keys(p.update(pos, (p[pos].0, m))),
        pairs_map(p.update(pos, (p[pos].0, m))) == pairs_map(p).insert(p[pos].0, m),
{
    let k = p[pos].0;
    let q = p.update(pos, (k, m));
    assert forall|i: int, j: int| 0 <= i < j < q.len() implies text_lt(
        #[trigger] q[i].0,
        #[trigger] q[j].0,
    ) by {
        assert(q[i].0 == p[i].0);
        assert(q[j].0 == p[j].0);
    }
    lemma_pairs_map(p);
    lemma_pairs_map(q);
    assert forall|x: Seq<char>| pairs_map(q).contains_key(x) <==> pairs_map(p).insert(
        k,
        m,
    ).contains_key(x) by {
        if has_key(q, x) {
            let i = index_of_key(q, x);
            assert(p[i].0 == x);
        }
        if has_key(p, x) {
            let i = index_of_key(p, x);
            assert(q[i].0 == x);
        }
    }
    assert forall|x: Seq<char>| pairs_map(q).contains_key(x) implies pairs_map(q)[x] == pairs_map(
        p,
    ).insert(k, m)[x] by {
        let i = index_of_key(q, x);
        assert(q[i].0 == x);
        assert(p[i].0 == x);
    }
    assert(pairs_map(q) =~= pairs_map(p).insert(k, m));
}

/// A pair taken out keeps the order and leaves the map.
pub proof fn lemma_remove_pairs<M>(p: Seq<(Seq<char>, M)>, pos: int)
    requires
        sorted_keys(p),
        0 <= pos < p.len(),
    ensures
        sorted_keys(p.remove(pos)),
        pairs_map(p.remove(pos)) == pairs_map(p).remove(p[pos].0),
{
    let k = p[pos].0;
    let q = p.remove(pos);
    assert forall|i: int, j: int| 0 <= i < j < q.len() implies text_lt(
        #[trigger] q[i].0,
        #[trigger] q[j].0,
    ) by {
        let oi = if i < pos {
            i
        } else {
            i + 1
        };
        let oj = if j < pos {
            j
        } else {
            j + 1
        };
        assert(q[i] == p[oi]);
        assert(q[j] == p[oj]);
    }
    lemma_pairs_map(p);
    lemma_pairs_map(q);
    assert forall|x: Seq<char>| pairs_map(q).contains_key(x) <==> pairs_map(p).remove(
        k,
    ).contains_key(x) by {
        if has_key(q, x) {
            let i = index_of_key(q, x);
            if i < pos {
                assert(q[i] == p[i]);
            } else {
                assert(q[i] == p[i + 1]);
            }
        }
        if has_key(p, x) && x != k {
            let i = index_of_key(p, x);
            if i < pos {
                assert(q[i] == p[i]);
            } else {
                assert(q[i - 1] == p[i]);
            }
        }
    }
    assert forall|x: Seq<char>| pairs_map(q).contains_key(x) implies pairs_map(q)[x] == pairs_map(
        p,
    ).remove(k)[x] by {
        let i = index_of_key(q, x);
        assert(q[i].0 == x);
        if i < pos {
            assert(q[i] == p[i]);
        } else {
            assert(q[i] == p[i + 1]);
        }
    }
    assert(pairs_map(q) =~= pairs_map(p).remove(k));
}

/// Sorted pairs are settled by the map they stand for.
pub proof fn lemma_map_settles_pairs<M>(p: Seq<(Seq<char>, M)>, q: Seq<(Seq<char>, M)>)
    requires
        sorted_keys(p),
        sorted_keys(q),
        pairs_map(p) == pairs_map(q),
    ensures
        p == q,
{
    lemma_pairs_map(p);
    lemma_pairs_map(q);
    lemma_same_prefix(p, q, p.len() as int);
    lemma_same_prefix(q, p, q.len() as int);
    assert(p =~= q);
}

proof fn lemma_same_prefix<M>(p: Seq<(Seq<char>, M)>, q: Seq<(Seq<char>, M)>, n: int)
    requires
        sorted_keys(p),
        sorted_keys(q),
        pairs_map(p) == pairs_map(q),
        0 <= n <= p.len(),
    ensures
        n <= q.len(),
        forall|i: int| 0 <= i < n ==> #[trigger] p[i] == q[i],
    decreases n,
{
    if n > 0 {
        lemma_same_prefix(p, q, n - 1);
        lemma_pairs_map(p);
        lemma_pairs_map(q);
        let i = n - 1;
        let k = p[i].0;
        assert(pairs_map(p).contains_key(k));
        assert(has_key(q, k));
        let j = index_of_key(q, k);
        assert(q[j].0 == k);
        if j < i {
            assert(p[j] == q[j]);
            assert(p[j].0 == p[i].0);
        }
        assert(j >= i);
        if j > i {
            // q[i] lies before k in q, so it is a key of p before index i.
            let k2 = q[i].0;
            assert(text_lt(k2, k));
            assert(pairs_map(q).contains_key(k2));
            assert(has_key(p, k2));
            let a = index_of_key(p, k2);
            assert(p[a].0 == k2);
            if a < i {
                assert(p[a] == q[a]);
                assert(q[a].0 == q[i].0);
            } else if a > i {
                lemma_text_order(k, k2, k2);
            } else {
                lemma_text_order(k, k2, k2);
            }
        }
        assert(j == i);
        assert(pairs_map(p)[k] == p[i].1);
        assert(pairs_map(q)[k] == q[i].1);
    }
}

/// The sorted pairs that stand for a map.
pub open spec fn sorted_pairs<M>(m: Map<Seq<char>, M>) -> Seq<(Seq<char>, M)> {
    choose|q: Seq<(Seq<char>, M)>| sorted_keys(q) && pairs_map(q) == m
}

/// Sorted pairs with `v` put under `k`.
pub open spec fn put<M>(p: Seq<(Seq<char>, M)>, k: Seq<char>, v: M) -> Seq<(Seq<char>, M)> {
    sorted_pairs(pairs_map(p).insert(k, v))
}

/// Sorted pairs without the entry under `k`.
pub open spec fn without<M>(p: Seq<(Seq<char>, M)>, k: Seq<char>) -> Seq<(Seq<char>, M)> {
    sorted_pairs(pairs_map(p).remove(k))
}

/// Sorted pairs are the sorted pairs of their map.
pub proof fn lemma_sorted_pairs<M>(q: Seq<(Seq<char>, M)>)
    requires
        sorted_keys(q),
    ensures
        sorted_pairs(pairs_map(q)) == q,
{
    let m = pairs_map(q);
    let c = sorted_pairs(m);
    assert(sorted_keys(c) && pairs_map(c) == m);
    lemma_map_settles_pairs(c, q);
}

#[derive(Debug, PartialEq)]
pub struct StrMap<V> {
    entries: Vec<(String, V)>,
}

impl<V> StrMap<V> {
    #[verifier::type_invariant]
    spec fn ordered(self) -> bool {
        forall|i: int, j: int|
            0 <= i < j < self.entries@.len() ==> text_lt(
                (#[trigger] self.entries@[i]).0@,
                (#[trigger] self.entries@[j]).0@,
            )
    }
}

impl<V: Model> StrMap<V> {
    /// The entries in key order, as models.
    pub closed spec fn pairs(self) -> Seq<(Seq<char>, V::M)> {
        Seq::new(self.entries@.len(), |i: int| (self.entries@[i].0@, self.entries@[i].1.model()))
    }

    /// The content as a map.
    pub open spec fn map(self) -> Map<Seq<char>, V::M> {
        pairs_map(self.pairs())
    }

    /// The keys in lexicographic order.
    pub open spec fn keys(self) -> Seq<Seq<char>> {
        pairs_keys(self.pairs())
    }

    pub fn new() -> (r: Self)
        ensures
            r.pairs() == Seq::<(Seq<char>, V::M)>::empty(),
            r.map() == Map::<Seq<char>, V::M>::empty(),
    {
        let r = StrMap { entries: Vec::new() };
        assert(r.pairs() =~= Seq::<(Seq<char>, V::M)>::empty());
        assert(r.map() =~= Map::<Seq<char>, V::M>::empty());
        r
    }

    /// The number of entries; the entries of a map are always in key order.
    pub fn len(&self) -> (r: usize)
        ensures
            r == self.pairs().len(),
            sorted_keys(self.pairs()),
    {
        proof {
            use_type_invariant(self);
        }
        self.entries.len()
    }

    pub fn is_empty(&self) -> (r: bool)
        ensures
            r == (self.pairs().len() == 0),
            r == (self.map() == Map::<Seq<char>, V::M>::empty()),
    {
        proof {
            use_type_invariant(self);
            lemma_pairs_map(self.pairs());
            if self.pairs().len() > 0 {
                assert(self.map().contains_key(self.pairs()[0].0));
            } else {
                assert(self.map() =~= Map::<Seq<char>, V::M>::empty());
            }
        }
        self.entries.len() == 0
    }

    /// The key of the entry at `i` in key order.
    pub fn key_at(&self, i: usize) -> (r: &String)
        requires
            i < self.pairs().len(),
        ensures
            r@ == self.pairs()[i as int].0,
    {
        &self.entries[i].0
    }

    /// The value of the entry at `i` in key order.
    pub fn value_at(&self, i: usize) -> (r: &V)
        requires
            i < self.pairs().len(),
        ensures
            r.model() == self.pairs()[i as int].1,
    {
        &self.entries[i].1
    }

    /// Finds the slot of `key` by bisection.
    pub fn search(&self, key: &str) -> (r: (usize, bool))
        ensures
            slot_of(self.pairs(), key@, r.0 as int, r.1),
            sorted_keys(self.pairs()),
    {
        proof {
            use_type_invariant(self);
        }
        let k = chars_of(key);
        let ghost p = self.pairs();
        let mut lo: usize = 0;
        let mut hi: usize = self.entries.len();
        while lo < hi
            invariant
                lo <= hi <= p.len(),
                p == self.pairs(),
                sorted_keys(p),
                k@ == key@,
                forall|i: int| 0 <= i < lo ==> text_lt((#[trigger] p[i]).0, k@),
                forall|i: int| hi <= i < p.len() ==> text_lt(k@, (#[trigger] p[i]).0),
            decreases hi - lo,
        {
            let mid: usize = lo + (hi - lo) / 2;
            let c = chars_of(self.entries[mid].0.as_str());
            assert(c@ == p[mid as int].0);
            match relate(&c, &k) {
                Relation::Before => {
                    assert forall|i: int| 0 <= i < mid + 1 implies text_lt(
                        (#[trigger] p[i]).0,
                        k@,
                    ) by {
                        if i < mid {
                            lemma_text_order(p[i].0, p[mid as int].0, k@);
                        }
                    }
                    lo = mid + 1;
                },
                Relation::Same => {
                    proof {
                        lemma_text_order(c@, k@, k@);
                        assert forall|i: int| mid < i < p.len() implies text_lt(
                            k@,
                            (#[trigger] p[i]).0,
                        ) by {}
                    }
                    return (mid, true);
                },
                Relation::After => {
                    assert forall|i: int| mid <= i < p.len() implies text_lt(
                        k@,
                        (#[trigger] p[i]).0,
                    ) by {
                        lemma_text_order(c@, k@, k@);
                        if i > mid {
                            lemma_text_order(k@, p[mid as int].0, p[i].0);
                        }
                    }
                    hi = mid;
                },
            }
        }
        proof {
            if has_key(p, k@) {
                let i = index_of_key(p, k@);
                lemma_text_order(k@, k@, k@);
            }
        }
        (lo, false)
    }

    pub fn contains_key(&self, key: &str) -> (r: bool)
        ensures
            r == self.map().contains_key(key@),
    {
        let (pos, found) = self.search(key);
        proof {
            lemma_pairs_map(self.pairs());
        }
        found
    }

    /// The value under `key`.
    pub fn get(&self, key: &str) -> (r: Option<&V>)
        ensures
            r is Some <==> self.map().contains_key(key@),
            r is Some ==> r->0.model() == self.map()[key@],
    {
        let (pos, found) = self.search(key);
        proof {
            lemma_pairs_map(self.pairs());
        }
        if found {
            Some(&self.entries[pos].1)
        } else {
            None
        }
    }

    /// Puts `value` under `key` and hands back what stood there before.
    pub fn insert(&mut self, key: String, value: V) -> (r: Option<V>)
        ensures
            final(self).map() == old(self).map().insert(key@, value.model()),
            sorted_keys(final(self).pairs()),
            r is Some <==> old(self).map().contains_key(key@),
            r is Some ==> r->0.model() == old(self).map()[key@],
            r is Some ==> final(self).pairs().len() == old(self).pairs().len(),
            r is None ==> final(self).pairs().len() == old(self).pairs().len() + 1,
            final(self).pairs() == put(old(self).pairs(), key@, value.model()),
    {
        let (pos, found) = self.search(key.as_str());
        let ghost p = self.pairs();
        let ghost m = value.model();
        proof {
            lemma_pairs_map(p);
        }
        let mut tmp: Vec<(String, V)> = Vec::new();
        core::mem::swap(&mut self.entries, &mut tmp);
        if found {
            let before = tmp.remove(pos);
            tmp.insert(pos, (before.0, value));
            proof {
                lemma_update_pairs(p, pos as int, m);
                assert forall|i: int, j: int| 0 <= i < j < tmp@.len() implies text_lt(
                    (#[trigger] tmp@[i]).0@,
                    (#[trigger] tmp@[j]).0@,
                ) by {
                    assert(p[i].0 == tmp@[i].0@);
                    assert(p[j].0 == tmp@[j].0@);
                }
            }
            self.entries = tmp;
            assert(self.pairs() =~= p.update(pos as int, (p[pos as int].0, m)));
            proof {
                lemma_sorted_pairs(self.pairs());
            }
            Some(before.1)
        } else {
            tmp.insert(pos, (key, value));
            proof {
                lemma_insert_pairs(p, pos as int, key@, m);
                assert forall|i: int, j: int| 0 <= i < j < tmp@.len() implies text_lt(
                    (#[trigger] tmp@[i]).0@,
                    (#[trigger] tmp@[j]).0@,
                ) by {
                    let q = p.insert(pos as int, (key@, m));
                    assert(q.len() == tmp@.len());
                    assert(q[i].0 == tmp@[i].0@);
                    assert(q[j].0 == tmp@[j].0@);
                }
            }
            self.entries = tmp;
            assert(self.pairs() =~= p.insert(pos as int, (key@, m)));
            proof {
                lemma_sorted_pairs(self.pairs());
            }
            None
        }
    }

    /// Takes the entry under `key` out and hands back its value.
    pub fn remove(&mut self, key: &str) -> (r: Option<V>)
        ensures
            final(self).map() == old(self).map().remove(key@),
            sorted_keys(final(self).pairs()),
            r is Some <==> old(self).map().contains_key(key@),
            r is Some ==> r->0.model() == old(self).map()[key@],
            r is None ==> final(self).pairs() == old(self).pairs(),
            r is Some ==> final(self).pairs().len() == old(self).pairs().len() - 1,
            final(self).pairs() == without(old(self).pairs(), key@),
    {
        let (pos, found) = self.search(key);
        let ghost p = self.pairs();
        proof {
            lemma_pairs_map(p);
        }
        if found {
            let mut tmp: Vec<(String, V)> = Vec::new();
            core::mem::swap(&mut self.entries, &mut tmp);
            let before = tmp.remove(pos);
            proof {
                lemma_remove_pairs(p, pos as int);
                assert forall|i: int, j: int| 0 <= i < j < tmp@.len() implies text_lt(
                    (#[trigger] tmp@[i]).0@,
                    (#[trigger] tmp@[j]).0@,
                ) by {
                    let q = p.remove(pos as int);
                    assert(q.len() == tmp@.len());
                    assert(q[i].0 == tmp@[i].0@);
                    assert(q[j].0 == tmp@[j].0@);
                }
            }
            self.entries = tmp;
            assert(self.pairs() =~= p.remove(pos as int));
            proof {
                lemma_sorted_pairs(self.pairs());
            }
            Some(before.1)
        } else {
            assert(self.map().remove(key@) =~= self.map());
            proof {
                lemma_sorted_pairs(self.pairs());
            }
            None
        }
    }
}

impl<V: Model> Model for StrMap<V> {
    type M = Seq<(Seq<char>, V::M)>;

    open spec fn model(&self) -> Seq<(Seq<char>, V::M)> {
        self.pairs()
    }

    fn copy_of(&self) -> (r: Self) {
        proof {
            use_type_invariant(self);
        }
        let mut out: Vec<(String, V)> = Vec::new();
        let mut i: usize = 0;
        while i < self.entries.len()
            invariant
                i <= self.entries.len(),
                out@.len() == i,
                forall|k: int|
                    0 <= k < i ==> (#[trigger] out@[k]).0@ == self.entries@[k].0@ && out@[k].1.model()
                        == self.entries@[k].1.model(),
            decreases self.entries.len() - i,
        {
            out.push((self.entries[i].0.clone(), self.entries[i].1.copy_of()));
            i += 1;
        }
        let r = StrMap { entries: out };
        assert(r.pairs() =~= self.pairs());
        r
    }

    fn same_as(&self, other: &Self) -> (b: bool) {
        if self.entries.len() != other.entries.len() {
            assert(self.pairs().len() != other.pairs().len());
            return false;
        }
        let mut i: usize = 0;
        while i < self.entries.len()
            invariant
                i <= self.entries.len(),
                self.entries.len() == other.entries.len(),
                forall|k: int| 0 <= k < i ==> (#[trigger] self.pairs()[k]) == other.pairs()[k],
            decreases self.entries.len() - i,
        {
            let same_key = self.entries[i].0 == other.entries[i].0;
            if !same_key || !self.entries[i].1.same_as(&other.entries[i].1) {
                assert(self.pairs()[i as int] != other.pairs()[i as int]);
                return false;
            }
            i += 1;
        }
        assert(self.pairs() =~= other.pairs());
        true
    }
}

/// A set of texts, held in lexicographic order.
#[derive(Debug, PartialEq)]
pub struct StrSet {
    inner: StrMap<()>,
}

impl StrSet {
    /// The members in lexicographic order.
    pub closed spec fn items(self) -> Seq<Seq<char>> {
        self.inner.keys()
    }

    /// The members as a set.
    pub closed spec fn set(self) -> Set<Seq<char>> {
        self.inner.map().dom()
    }

    pub fn new() -> (r: Self)
        ensures
            r.items() == Seq::<Seq<char>>::empty(),
            r.set() == Set::<Seq<char>>::empty(),
    {
        let r = StrSet { inner: StrMap::new() };
        assert(r.items() =~= Seq::<Seq<char>>::empty());
        assert(r.set() =~= Set::<Seq<char>>::empty());
        r
    }

    /// The number of members; they are in strictly rising order, and they are
    /// the members of `set()`.
    pub fn len(&self) -> (r: usize)
        ensures
            r == self.items().len(),
            rising(self.items()),
            forall|k: Seq<char>| self.set().contains(k) <==> self.items().contains(k),
    {
        let n = self.inner.len();
        proof {
            let p = self.inner.pairs();
            lemma_pairs_map(p);
            assert forall|i: int, j: int| 0 <= i < j < self.items().len() implies text_lt(
                #[trigger] self.items()[i],
                #[trigger] self.items()[j],
            ) by {
                assert(self.items()[i] == p[i].0);
                assert(self.items()[j] == p[j].0);
            }
            assert forall|k: Seq<char>| self.set().contains(k) <==> self.items().contains(k) by {
                if has_key(p, k) {
                    let i = index_of_key(p, k);
                    assert(self.items()[i] == k);
                }
                if self.items().contains(k) {
                    let i = choose|i: int| 0 <= i < self.items().len() && self.items()[i] == k;
                    assert(p[i].0 == k);
                }
            }
        }
        n
    }

    pub fn is_empty(&self) -> (r: bool)
        ensures
            r == (self.items().len() == 0),
            r == (self.set() == Set::<Seq<char>>::empty()),
    {
        let r = self.inner.is_empty();
        let n = self.inner.len();
        proof {
            if r {
                assert(self.set() =~= Set::<Seq<char>>::empty());
            } else {
                lemma_pairs_map(self.inner.pairs());
                assert(self.set().contains(self.inner.pairs()[0].0));
            }
        }
        r
    }

    /// The member at `i` in lexicographic order.
    pub fn item_at(&self, i: usize) -> (r: &String)
        requires
            i < self.items().len(),
        ensures
            r@ == self.items()[i as int],
    {
        self.inner.key_at(i)
    }

    pub fn contains(&self, key: &str) -> (r: bool)
        ensures
            r == self.set().contains(key@),
    {
        self.inner.contains_key(key)
    }

    /// Adds `key`; true where it was not a member before.
    pub fn insert(&mut self, key: String) -> (r: bool)
        ensures
            final(self).set() == old(self).set().insert(key@),
            r == !old(self).set().contains(key@),
            final(self).items().len() == old(self).items().len() + if r {
                1int
            } else {
                0int
            },
    {
        let before = self.inner.insert(key, ());
        assert(self.set() =~= old(self).set().insert(key@));
        before.is_none()
    }

    /// Takes `key` out; true where it was a member.
    pub fn remove(&mut self, key: &str) -> (r: bool)
        ensures
            final(self).set() == old(self).set().remove(key@),
            r == old(self).set().contains(key@),
            final(self).items().len() == old(self).items().len() - if r {
                1int
            } else {
                0int
            },
    {
        let before = self.inner.remove(key);
        assert(self.set() =~= old(self).set().remove(key@));
        before.is_some()
    }

    /// The members as a list, in lexicographic order.
    pub fn to_vec(&self) -> (r: Vec<String>)
        ensures
            r.model() == self.items(),
    {
        let n = self.inner.len();
        let mut out: Vec<String> = Vec::new();
        let mut i: usize = 0;
        while i < n
            invariant
                i <= n,
                n == self.items().len(),
                out@.len() == i,
                forall|k: int| 0 <= k < i ==> (#[trigger] out@[k])@ == self.items()[k],
            decreases n - i,
        {
            out.push(self.inner.key_at(i).clone());
            i += 1;
        }
        assert(out.model() =~= self.items());
        out
    }
}

/// Strictly rising in lexicographic order.
pub open spec fn rising(s: Seq<Seq<char>>) -> bool {
    forall|i: int, j: int| 0 <= i < j < s.len() ==> text_lt(#[trigger] s[i], #[trigger] s[j])
}

impl Model for StrSet {
    type M = Seq<Seq<char>>;

    open spec fn model(&self) -> Seq<Seq<char>> {
        self.items()
    }

    fn copy_of(&self) -> (r: Self) {
        let r = StrSet { inner: self.inner.copy_of() };
        r
    }

    fn same_as(&self, other: &Self) -> (b: bool) {
        let b = self.inner.same_as(&other.inner);
        proof {
            let p = self.inner.pairs();
            let q = other.inner.pairs();
            if self.inner.keys() == other.inner.keys() {
                assert(p.len() == self.inner.keys().len());
                assert(q.len() == other.inner.keys().len());
                assert forall|i: int| 0 <= i < p.len() implies p[i] == q[i] by {
                    assert(self.inner.keys()[i] == p[i].0);
                    assert(other.inner.keys()[i] == q[i].0);
                }
                assert(p =~= q);
            }
        }
        b
    }
}

} // verus!

verus! {

/// A rising list is settled by its members.
pub proof fn lemma_rising_settled(a: Seq<Seq<char>>, b: Seq<Seq<char>>)
    requires
        rising(a),
        rising(b),
        forall|k: Seq<char>| a.contains(k) <==> b.contains(k),
    ensures
        a == b,
{
    let pa = Seq::new(a.len(), |i: int| (a[i], ()));
    let pb = Seq::new(b.len(), |i: int| (b[i], ()));
    assert(sorted_keys(pa)) by {
        assert forall|i: int, j: int| 0 <= i < j < pa.len() implies text_lt(
            #[trigger] pa[i].0,
            #[trigger] pa[j].0,
        ) by {
            assert(pa[i].0 == a[i] && pa[j].0 == a[j]);
        }
    }
    assert(sorted_keys(pb)) by {
        assert forall|i: int, j: int| 0 <= i < j < pb.len() implies text_lt(
            #[trigger] pb[i].0,
            #[trigger] pb[j].0,
        ) by {
            assert(pb[i].0 == b[i] && pb[j].0 == b[j]);
        }
    }
    assert forall|k: Seq<char>| has_key(pa, k) <==> has_key(pb, k) by {
        if has_key(pa, k) {
            let i = index_of_key(pa, k);
            assert(a[i] == k);
            assert(a.contains(k));
            let j = choose|j: int| 0 <= j < b.len() && b[j] == k;
            assert(pb[j].0 == k);
        }
        if has_key(pb, k) {
            let i = index_of_key(pb, k);
            assert(b[i] == k);
            assert(b.contains(k));
            let j = choose|j: int| 0 <= j < a.len() && a[j] == k;
            assert(pa[j].0 == k);
        }
    }
    assert(pairs_map(pa) =~= pairs_map(pb));
    lemma_map_settles_pairs(pa, pb);
    assert(a =~= b) by {
        assert(a.len() == pa.len() && b.len() == pb.len());
        assert forall|i: int| 0 <= i < a.len() implies a[i] == b[i] by {
            assert(pa[i].0 == a[i]);
            assert(pb[i].0 == b[i]);
        }
    }
}

/// The rising list of the members of a set.
pub open spec fn sorted_list(set: Set<Seq<char>>) -> Seq<Seq<char>> {
    choose|s: Seq<Seq<char>>| rising(s) && forall|k: Seq<char>| s.contains(k) <==> set.contains(k)
}

/// A rising list is the sorted list of its members.
pub proof fn lemma_sorted_list(s: Seq<Seq<char>>, set: Set<Seq<char>>)
    requires
        rising(s),
        forall|k: Seq<char>| s.contains(k) <==> set.contains(k),
    ensures
        sorted_list(set) == s,
{
    let c = sorted_list(set);
    assert(rising(c) && forall|k: Seq<char>| c.contains(k) <==> set.contains(k));
    lemma_rising_settled(c, s);
}

} // verus!
