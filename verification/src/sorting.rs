//! The row order of a sort: a stable insertion sort over precomputed keys.

use vstd::prelude::*;
use crate::model::Model;
use crate::text::{lemma_relation_flip, lower_text, Relation};
use crate::value::{compare_values, display_text, type_rank_of, value_relation, Value, ValueModel};

verus! {

broadcast use vstd::std_specs::vec::group_vec_axioms;

/// `order` lists each of the indices `0..n` once.
pub open spec fn is_order(order: Seq<usize>, n: int) -> bool {
    &&& order.len() == n
    &&& forall|a: int| 0 <= a < order.len() ==> #[trigger] order[a] < n
    &&& forall|a: int, b: int| 0 <= a < b < order.len() ==> #[trigger] order[a] != #[trigger] order[b]
}

/// How the keys of rows `i` and `j` stand to each other.
#[verifier::opaque]
pub open spec fn key_order(keys: Seq<Option<ValueModel>>, i: int, j: int) -> Relation {
    value_relation(keys[i], keys[j])
}

/// Along `order` no key comes before its predecessor, and of two neighbours
/// with keys of one rank the one that stood first before still does.
pub open spec fn ascending(order: Seq<usize>, keys: Seq<Option<ValueModel>>) -> bool {
    forall|a: int, b: int|
        0 <= a && b == a + 1 && b < order.len() ==> key_order(
            keys,
            #[trigger] order[b] as int,
            #[trigger] order[a] as int,
        ) != Relation::Before && (key_order(keys, order[a] as int, order[b] as int)
            == Relation::Same ==> order[a] < order[b])
}

/// `order` is the row order of a sort by `keys`: ascending and stable, and
/// for a descending sort that order reversed.
pub open spec fn sorts(order: Seq<usize>, keys: Seq<Option<ValueModel>>, descending: bool) -> bool {
    &&& is_order(order, keys.len() as int)
    &&& if descending {
        ascending(order.reverse(), keys)
    } else {
        ascending(order, keys)
    }
}

/// A value that comes before another does not come after it as well.
pub proof fn lemma_before_is_one_way(a: Option<ValueModel>, b: Option<ValueModel>)
    requires
        value_relation(a, b) == Relation::Before,
    ensures
        value_relation(b, a) == Relation::After,
{
    match (a, b) {
        (Some(l), Some(r)) => {
            match (l, r) {
                (ValueModel::Text(x), ValueModel::Text(y)) => {
                    lemma_relation_flip(lower_text(x), lower_text(y), 0);
                },
                _ => {
                    if type_rank_of(l) == type_rank_of(r) {
                        lemma_relation_flip(display_text(l), display_text(r), 0);
                    }
                },
            }
        },
        _ => {},
    }
}

/// A row whose key comes before another's does not come after it as well.
pub proof fn lemma_key_order_one_way(keys: Seq<Option<ValueModel>>, i: int, j: int)
    requires
        key_order(keys, i, j) == Relation::Before,
    ensures
        key_order(keys, j, i) == Relation::After,
{
    reveal(key_order);
    lemma_before_is_one_way(keys[i], keys[j]);
}

fn compare_keys(keys: &Vec<Option<Value>>, i: usize, j: usize) -> (r: Relation)
    requires
        i < keys.len(),
        j < keys.len(),
    ensures
        r == key_order(keys.model(), i as int, j as int),
{
    reveal(key_order);
    compare_values(keys[i].as_ref(), keys[j].as_ref())
}

fn reversed(v: &Vec<usize>) -> (r: Vec<usize>)
    ensures
        r@ == v@.reverse(),
{
    let mut out: Vec<usize> = Vec::new();
    let n: usize = v.len();
    let mut i: usize = 0;
    while i < n
        invariant
            i <= n,
            n == v.len(),
            out@.len() == i,
            forall|k: int| 0 <= k < i ==> #[trigger] out@[k] == v@[n - 1 - k],
        decreases n - i,
    {
        out.push(v[n - 1 - i]);
        i += 1;
    }
    assert(out@ =~= v@.reverse());
    out
}

/// The row order of a sort by `keys`.
pub fn sort_order(keys: &Vec<Option<Value>>, descending: bool) -> (r: Vec<usize>)
    ensures
        sorts(r@, keys.model(), descending),
{
    let ghost km = keys.model();
    let n: usize = keys.len();
    let mut order: Vec<usize> = Vec::new();
    let mut i: usize = 0;
    while i < n
        invariant
            i <= n,
            n == keys.len(),
            km == keys.model(),
            is_order(order@, i as int),
            ascending(order@, km),
        decreases n - i,
    {
        let ghost before = order@;
        let mut p: usize = i;
        while p > 0 && compare_keys(keys, i, order[p - 1]) == Relation::Before
            invariant
                p <= i,
                i < n,
                n == keys.len(),
                km == keys.model(),
                order@ == before,
                is_order(before, i as int),
                forall|q: int|
                    p <= q < i ==> key_order(km, i as int, #[trigger] before[q] as int)
                        == Relation::Before,
            decreases p,
        {
            p -= 1;
        }
        order.insert(p, i);
        proof {
            let after = order@;
            assert forall|a: int| 0 <= a < after.len() implies #[trigger] after[a] < i + 1 by {
                if a < p {
                    assert(after[a] == before[a]);
                } else if a > p {
                    assert(after[a] == before[a - 1]);
                }
            }
            assert forall|a: int, b: int| 0 <= a < b < after.len() implies #[trigger] after[a]
                != #[trigger] after[b] by {
                let oa = if a < p {
                    a
                } else {
                    a - 1
                };
                let ob = if b < p {
                    b
                } else {
                    b - 1
                };
                if a != p {
                    assert(after[a] == before[oa]);
                }
                if b != p {
                    assert(after[b] == before[ob]);
                }
            }
            assert forall|a: int, b: int| 0 <= a && b == a + 1 && b < after.len() implies key_order(
                km,
                #[trigger] after[b] as int,
                #[trigger] after[a] as int,
            ) != Relation::Before && (key_order(km, after[a] as int, after[b] as int)
                == Relation::Same ==> after[a] < after[b]) by {
                if b < p {
                    assert(after[a] == before[a]);
                    assert(after[b] == before[b]);
                } else if b == p {
                    assert(after[a] == before[a]);
                    assert(before[a] < i);
                } else if a == p {
                    assert(after[b] == before[a]);
                    lemma_key_order_one_way(km, i as int, before[a] as int);
                } else {
                    assert(after[a] == before[a - 1]);
                    assert(after[b] == before[b - 1]);
                }
            }
        }
        i += 1;
    }
    if descending {
        let r = reversed(&order);
        proof {
            assert(r@.reverse() =~= order@);
            assert forall|a: int| 0 <= a < r@.len() implies #[trigger] r@[a] < n by {
                assert(r@[a] == order@[n - 1 - a]);
            }
            assert forall|a: int, b: int| 0 <= a < b < r@.len() implies #[trigger] r@[a]
                != #[trigger] r@[b] by {
                assert(r@[a] == order@[n - 1 - a]);
                assert(r@[b] == order@[n - 1 - b]);
            }
        }
        r
    } else {
        order
    }
}

} // verus!

verus! {

/// Turning two values round turns their order round.
pub proof fn lemma_order_flips(a: Option<ValueModel>, b: Option<ValueModel>)
    ensures
        value_relation(a, b) == Relation::Before <==> value_relation(b, a) == Relation::After,
        value_relation(a, b) == Relation::Same <==> value_relation(b, a) == Relation::Same,
        value_relation(a, b) == Relation::After <==> value_relation(b, a) == Relation::Before,
{
    match (a, b) {
        (Some(l), Some(r)) => {
            match (l, r) {
                (ValueModel::Text(x), ValueModel::Text(y)) => {
                    lemma_relation_flip(lower_text(x), lower_text(y), 0);
                },
                _ => {
                    if type_rank_of(l) == type_rank_of(r) {
                        lemma_relation_flip(display_text(l), display_text(r), 0);
                    }
                },
            }
        },
        _ => {},
    }
}

/// The sort order carries over a value in between: where `a` does not come
/// after `b`, nor `b` after `c`, `a` does not come after `c`.
pub proof fn lemma_order_carries_over(
    a: Option<ValueModel>,
    b: Option<ValueModel>,
    c: Option<ValueModel>,
)
    requires
        value_relation(a, b) != Relation::After,
        value_relation(b, c) != Relation::After,
    ensures
        value_relation(a, c) != Relation::After,
{
    match (a, b, c) {
        (Some(x), Some(y), Some(z)) => {
            if type_rank_of(x) == type_rank_of(y) && type_rank_of(y) == type_rank_of(z) {
                match (x, y, z) {
                    (ValueModel::Text(p), ValueModel::Text(q), ValueModel::Text(r)) => {
                        crate::text::lemma_relation_transitive(
                            lower_text(p),
                            lower_text(q),
                            lower_text(r),
                            0,
                        );
                    },
                    (ValueModel::Array(_), ValueModel::Array(_), ValueModel::Array(_)) => {
                        crate::text::lemma_relation_transitive(
                            display_text(x),
                            display_text(y),
                            display_text(z),
                            0,
                        );
                    },
                    (ValueModel::Object(_), ValueModel::Object(_), ValueModel::Object(_)) => {
                        crate::text::lemma_relation_transitive(
                            display_text(x),
                            display_text(y),
                            display_text(z),
                            0,
                        );
                    },
                    _ => {},
                }
            }
        },
        _ => {},
    }
}

/// Rows in the order of an ascending sort are in order throughout: no row's
/// key comes before the key of a row that stands earlier.
pub proof fn lemma_sorted_throughout(
    order: Seq<usize>,
    keys: Seq<Option<ValueModel>>,
    i: int,
    j: int,
)
    requires
        ascending(order, keys),
        0 <= i <= j < order.len(),
    ensures
        value_relation(keys[order[j] as int], keys[order[i] as int]) != Relation::Before,
    decreases j - i,
{
    reveal(key_order);
    let a = keys[order[i] as int];
    let c = keys[order[j] as int];
    if i == j {
        lemma_order_flips(a, a);
    } else {
        lemma_sorted_throughout(order, keys, i, j - 1);
        let b = keys[order[j - 1] as int];
        assert(key_order(keys, order[j] as int, order[j - 1] as int) != Relation::Before);
        lemma_order_flips(c, b);
        lemma_order_flips(b, a);
        lemma_order_carries_over(a, b, c);
        lemma_order_flips(a, c);
    }
}

} // verus!
