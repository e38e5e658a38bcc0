//! The table: rows of named cells, and the edits that keep it rectangular.

use vstd::prelude::*;
use crate::model::Model;
use crate::strmap::{has_key, lemma_pairs_map, pairs_map, put, rising, StrMap, StrSet};
use crate::text::{trim, trimmed};
use crate::value::{Value, ValueModel};

verus! {

broadcast use vstd::std_specs::vec::group_vec_axioms;

/// One JSON object: its members by name.
pub type Row = StrMap<Value>;

/// The rows of the sheet in display order.
pub type TableData = Vec<Row>;

pub type RowModel = Seq<(Seq<char>, ValueModel)>;

pub type TableModel = Seq<RowModel>;

/// Some row has a member named `k`.
pub open spec fn column_in(data: TableModel, k: Seq<char>) -> bool {
    exists|i: int| 0 <= i < data.len() && has_key(#[trigger] data[i], k)
}

/// `cols` lists the names of all members of all rows, each once, in
/// lexicographic order.
pub open spec fn lists_columns(cols: Seq<Seq<char>>, data: TableModel) -> bool {
    &&& rising(cols)
    &&& forall|k: Seq<char>| cols.contains(k) <==> column_in(data, k)
}

/// The row that holds null under every column of `data`.
pub open spec fn blank_row_map(data: TableModel) -> Map<Seq<char>, ValueModel> {
    Map::new(|k: Seq<char>| column_in(data, k), |k: Seq<char>| ValueModel::Null)
}

/// The names of all members of all rows, sorted.
pub fn derive_columns(data: &TableData) -> (r: Vec<String>)
    ensures
        lists_columns(r.model(), data.model()),
{
    let cols = column_set(data);
    let n = cols.len();
    let r = cols.to_vec();
    proof {
        assert forall|k: Seq<char>| r.model().contains(k) <==> column_in(data.model(), k) by {
            assert(cols.items().contains(k) <==> cols.set().contains(k));
        }
    }
    r
}

/// The names of the members of the first `n` rows.
pub open spec fn columns_upto(data: TableModel, n: int) -> Set<Seq<char>> {
    Set::new(|k: Seq<char>| exists|a: int| 0 <= a < n && has_key(#[trigger] data[a], k))
}

/// The first `n` keys of a row.
pub open spec fn keys_upto(p: RowModel, n: int) -> Set<Seq<char>> {
    Set::new(|k: Seq<char>| exists|b: int| 0 <= b < n && (#[trigger] p[b]).0 == k)
}

/// The names of all members of all rows, as a set.
pub fn column_set(data: &TableData) -> (r: StrSet)
    ensures
        forall|k: Seq<char>| r.set().contains(k) <==> column_in(data.model(), k),
{
    let mut cols = StrSet::new();
    let ghost m = data.model();
    let mut i: usize = 0;
    assert(cols.set() =~= columns_upto(m, 0));
    while i < data.len()
        invariant
            i <= data.len(),
            m == data.model(),
            cols.set() == columns_upto(m, i as int),
        decreases data.len() - i,
    {
        let row = &data[i];
        let n = row.len();
        let ghost p = row.pairs();
        assert(p == m[i as int]);
        let ghost base = cols.set();
        let mut j: usize = 0;
        assert(cols.set() =~= base.union(keys_upto(p, 0)));
        while j < n
            invariant
                j <= n,
                n == p.len(),
                p == row.pairs(),
                cols.set() == base.union(keys_upto(p, j as int)),
            decreases n - j,
        {
            let key = row.key_at(j).clone();
            cols.insert(key);
            proof {
                assert forall|k: Seq<char>| keys_upto(p, j + 1).contains(k) <==> (keys_upto(
                    p,
                    j as int,
                ).contains(k) || k == p[j as int].0) by {
                    if keys_upto(p, j + 1).contains(k) {
                        let b = choose|b: int| 0 <= b < j + 1 && (#[trigger] p[b]).0 == k;
                        if b < j {
                            assert(p[b].0 == k);
                        }
                    }
                    if keys_upto(p, j as int).contains(k) {
                        let b = choose|b: int| 0 <= b < j && (#[trigger] p[b]).0 == k;
                        assert(p[b].0 == k);
                    }
                    if k == p[j as int].0 {
                        assert(p[j as int].0 == k);
                    }
                }
                assert(cols.set() =~= base.union(keys_upto(p, j + 1)));
            }
            j += 1;
        }
        proof {
            assert forall|k: Seq<char>| columns_upto(m, i + 1).contains(k) <==> (columns_upto(
                m,
                i as int,
            ).contains(k) || keys_upto(p, n as int).contains(k)) by {
                if columns_upto(m, i + 1).contains(k) {
                    let a = choose|a: int| 0 <= a < i + 1 && has_key(#[trigger] m[a], k);
                    if a < i {
                        assert(has_key(m[a], k));
                    } else {
                        let b = choose|b: int| 0 <= b < p.len() && (#[trigger] p[b]).0 == k;
                        assert(p[b].0 == k);
                    }
                }
                if columns_upto(m, i as int).contains(k) {
                    let a = choose|a: int| 0 <= a < i && has_key(#[trigger] m[a], k);
                    assert(has_key(m[a], k));
                }
                if keys_upto(p, n as int).contains(k) {
                    let b = choose|b: int| 0 <= b < n && (#[trigger] p[b]).0 == k;
                    assert(p[b].0 == k);
                    assert(has_key(m[i as int], k));
                }
            }
            assert(cols.set() =~= columns_upto(m, i + 1));
        }
        i += 1;
    }
    proof {
        assert forall|k: Seq<char>| cols.set().contains(k) <==> column_in(m, k) by {
            if cols.set().contains(k) {
                let a = choose|a: int| 0 <= a < i && has_key(#[trigger] m[a], k);
                assert(has_key(m[a], k));
            }
            if column_in(m, k) {
                let a = choose|a: int| 0 <= a < m.len() && has_key(#[trigger] m[a], k);
                assert(has_key(m[a], k));
            }
        }
    }
    cols
}

/// Writes `value` into the cell at `row_index` under `column`; false where
/// there is no such row.
pub fn set_cell_value(data: &mut TableData, row_index: usize, column: &str, value: Value) -> (r:
    bool)
    ensures
        r == (row_index < old(data)@.len()),
        final(data).model().len() == old(data).model().len(),
        forall|i: int|
            0 <= i < old(data)@.len() && i != row_index ==> #[trigger] final(data).model()[i] == old(
                data,
            ).model()[i],
        r ==> pairs_map(final(data).model()[row_index as int]) == pairs_map(
            old(data).model()[row_index as int],
        ).insert(column@, value.model()),
        r ==> final(data).model() == old(data).model().update(
            row_index as int,
            put(old(data).model()[row_index as int], column@, value.model()),
        ),
        !r ==> final(data).model() == old(data).model(),
{
    if row_index < data.len() {
        let key = owned(column);
        let ghost before = data.model();
        assert(before[row_index as int] == data@[row_index as int].pairs());
        data[row_index].insert(key, value);
        assert(data.model()[row_index as int] == data@[row_index as int].pairs());
        assert(data.model() =~= before.update(
            row_index as int,
            put(before[row_index as int], column@, value.model()),
        ));
        true
    } else {
        assert(data.model() =~= old(data).model());
        false
    }
}

/// The text of `s`, as an owned string.
fn owned(s: &str) -> (r: String)
    ensures
        r@ == s@,
{
    s.to_owned()
}

/// Adds a row that holds null under every column the table has.
pub fn add_row(data: &mut TableData)
    ensures
        final(data).model().len() == old(data).model().len() + 1,
        forall|i: int|
            0 <= i < old(data)@.len() ==> #[trigger] final(data).model()[i] == old(data).model()[i],
        pairs_map(final(data).model().last()) == blank_row_map(old(data).model()),
{
    let columns = derive_columns(data);
    let ghost m = data.model();
    let mut row: Row = StrMap::new();
    let mut i: usize = 0;
    while i < columns.len()
        invariant
            i <= columns.len(),
            lists_columns(columns.model(), m),
            forall|k: Seq<char>|
                row.map().contains_key(k) <==> exists|b: int|
                    0 <= b < i && #[trigger] columns.model()[b] == k,
            forall|k: Seq<char>| row.map().contains_key(k) ==> row.map()[k] == ValueModel::Null,
        decreases columns.len() - i,
    {
        let ghost before = row.map();
        row.insert(columns[i].clone(), Value::Null);
        assert(columns.model()[i as int] == columns@[i as int]@);
        assert forall|k: Seq<char>|
            row.map().contains_key(k) <==> exists|b: int|
                0 <= b < i + 1 && #[trigger] columns.model()[b] == k by {
            if exists|b: int| 0 <= b < i + 1 && #[trigger] columns.model()[b] == k {
                let b = choose|b: int| 0 <= b < i + 1 && #[trigger] columns.model()[b] == k;
                if b < i {
                    assert(before.contains_key(k));
                }
            }
        }
        i += 1;
    }
    proof {
        assert forall|k: Seq<char>| row.map().contains_key(k) <==> column_in(m, k) by {
            if column_in(m, k) {
                assert(columns.model().contains(k));
            }
            if row.map().contains_key(k) {
                let b = choose|b: int| 0 <= b < columns.len() && #[trigger] columns.model()[b] == k;
                assert(columns.model().contains(k));
            }
        }
        assert(row.map() =~= blank_row_map(m));
    }
    data.push(row);
}

/// Deletes the row at `row_index`; false where there is none.
pub fn delete_row(data: &mut TableData, row_index: usize) -> (r: bool)
    ensures
        r == (row_index < old(data)@.len()),
        r ==> final(data).model() == old(data).model().remove(row_index as int),
        !r ==> final(data).model() == old(data).model(),
{
    if row_index < data.len() {
        data.remove(row_index);
        assert(data.model() =~= old(data).model().remove(row_index as int));
        true
    } else {
        assert(data.model() =~= old(data).model());
        false
    }
}

/// Whether some row has a member named `name`.
pub fn has_column(data: &TableData, name: &str) -> (r: bool)
    ensures
        r == column_in(data.model(), name@),
{
    let mut i: usize = 0;
    while i < data.len()
        invariant
            i <= data.len(),
            forall|a: int| 0 <= a < i ==> !has_key(#[trigger] data.model()[a], name@),
        decreases data.len() - i,
    {
        let n = data[i].len();
        if data[i].contains_key(name) {
            proof {
                lemma_pairs_map(data.model()[i as int]);
            }
            return true;
        }
        proof {
            lemma_pairs_map(data.model()[i as int]);
        }
        i += 1;
    }
    false
}

/// Adds a column of nulls under the trimmed `name`. An empty name, or one that
/// some row already has, is refused; an empty table gets its first row.
pub fn add_column(data: &mut TableData, name: &str) -> (r: bool)
    ensures
        r == (trim(name@).len() > 0 && !column_in(old(data).model(), trim(name@))),
        !r ==> final(data).model() == old(data).model(),
        r && old(data)@.len() == 0 ==> final(data).model().len() == 1 && pairs_map(
            final(data).model()[0],
        ) == Map::<Seq<char>, ValueModel>::empty().insert(trim(name@), ValueModel::Null),
        r && old(data)@.len() > 0 ==> final(data).model().len() == old(data).model().len()
            && forall|i: int|
            0 <= i < old(data)@.len() ==> pairs_map(#[trigger] final(data).model()[i]) == pairs_map(
                old(data).model()[i],
            ).insert(trim(name@), ValueModel::Null),
{
    let trimmed_name = trimmed(name);
    if trimmed_name.as_str().is_empty() {
        assert(data.model() =~= old(data).model());
        return false;
    }
    if data.len() == 0 {
        let mut row: Row = StrMap::new();
        row.insert(trimmed_name, Value::Null);
        data.push(row);
        assert(!column_in(old(data).model(), trim(name@)));
        return true;
    }
    if has_column(data, trimmed_name.as_str()) {
        assert(data.model() =~= old(data).model());
        return false;
    }
    let mut i: usize = 0;
    while i < data.len()
        invariant
            i <= data.len(),
            data@.len() == old(data)@.len(),
            trimmed_name@ == trim(name@),
            forall|a: int|
                0 <= a < i ==> pairs_map(#[trigger] data.model()[a]) == pairs_map(
                    old(data).model()[a],
                ).insert(trim(name@), ValueModel::Null),
            forall|a: int| i <= a < data@.len() ==> #[trigger] data.model()[a] == old(data).model()[a],
        decreases data.len() - i,
    {
        let ghost before = data.model();
        assert(before[i as int] == data@[i as int].pairs());
        data[i].insert(trimmed_name.clone(), Value::Null);
        assert(data.model()[i as int] == data@[i as int].pairs());
        assert forall|a: int| 0 <= a < data@.len() && a != i implies #[trigger] data.model()[a]
            == before[a] by {}
        i += 1;
    }
    true
}

/// Deletes the column under the trimmed `name` from every row; false where no
/// row had it.
pub fn delete_column(data: &mut TableData, name: &str) -> (r: bool)
    ensures
        r == column_in(old(data).model(), trim(name@)),
        final(data).model().len() == old(data).model().len(),
        forall|i: int|
            0 <= i < old(data)@.len() ==> pairs_map(#[trigger] final(data).model()[i]) == pairs_map(
                old(data).model()[i],
            ).remove(trim(name@)),
        !r ==> final(data).model() == old(data).model(),
{
    let trimmed_name = trimmed(name);
    let mut removed = false;
    let mut i: usize = 0;
    while i < data.len()
        invariant
            i <= data.len(),
            data@.len() == old(data)@.len(),
            trimmed_name@ == trim(name@),
            forall|a: int|
                0 <= a < i ==> pairs_map(#[trigger] data.model()[a]) == pairs_map(
                    old(data).model()[a],
                ).remove(trim(name@)),
            forall|a: int| i <= a < data@.len() ==> #[trigger] data.model()[a] == old(data).model()[a],
            removed <==> exists|a: int|
                0 <= a < i && has_key(#[trigger] old(data).model()[a], trim(name@)),
            !removed ==> forall|a: int|
                0 <= a < i ==> #[trigger] data.model()[a] == old(data).model()[a],
        decreases data.len() - i,
    {
        let ghost before = data.model();
        let n = data[i].len();
        proof {
            lemma_pairs_map(before[i as int]);
        }
        let taken = data[i].remove(trimmed_name.as_str());
        assert forall|a: int| 0 <= a < data@.len() && a != i implies #[trigger] data.model()[a]
            == before[a] by {}
        if taken.is_some() {
            removed = true;
            assert(has_key(old(data).model()[i as int], trim(name@)));
        }
        i += 1;
    }
    proof {
        if !removed {
            assert(data.model() =~= old(data).model());
        }
    }
    removed
}

} // verus!
