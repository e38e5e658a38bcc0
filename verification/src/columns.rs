//! Which columns a sheet shows and in what order, and which column can serve
//! as the key of its rows.

use vstd::prelude::*;
use crate::data_model::{column_in, column_set, derive_columns, lists_columns, TableData, TableModel};
use crate::jsheet::{JSheetMeta, MetaModel};
use crate::model::Model;
use crate::strmap::{has_key, lemma_pairs_map, pairs_map, rising, StrMap, StrSet};
use crate::text::{lemma_text_order, text_lt};
use crate::value::ValueModel;

verus! {

broadcast use vstd::std_specs::vec::group_vec_axioms;

/// Some row of per-row metadata has an entry under `k`.
pub open spec fn column_in_rows<M>(rows: Seq<Seq<(Seq<char>, M)>>, k: Seq<char>) -> bool {
    exists|i: int| 0 <= i < rows.len() && has_key(#[trigger] rows[i], k)
}

/// A column that the sheet knows: a member of some row, a column with a
/// declared type, a comment column, a column with a summary, or a column of
/// some cell formula or cell style.
pub open spec fn known_column(m: MetaModel, data: TableModel, k: Seq<char>) -> bool {
    column_in(data, k) || has_key(m.columns, k) || m.comment_columns.contains(k) || has_key(
        m.summaries,
        k,
    ) || column_in_rows(m.cell_formulas, k) || column_in_rows(m.cell_styles, k)
}

/// The first `n` entries of the configured order, those left out that name no
/// known column.
pub open spec fn kept(order: Seq<Seq<char>>, m: MetaModel, data: TableModel, n: int) -> Seq<
    Seq<char>,
>
    decreases n,
{
    if n <= 0 {
        Seq::empty()
    } else {
        let head = kept(order, m, data, n - 1);
        if n <= order.len() && known_column(m, data, order[n - 1]) {
            head.push(order[n - 1])
        } else {
            head
        }
    }
}

/// `cols` is the display order: the configured order as far as it names known
/// columns, then every other known column once, in lexicographic order.
pub open spec fn displays(cols: Seq<Seq<char>>, m: MetaModel, data: TableModel) -> bool {
    let head = kept(m.column_order, m, data, m.column_order.len() as int);
    let tail = cols.subrange(head.len() as int, cols.len() as int);
    &&& cols.len() >= head.len()
    &&& cols.subrange(0, head.len() as int) == head
    &&& rising(tail)
    &&& forall|k: Seq<char>| tail.contains(k) <==> known_column(m, data, k) && !head.contains(k)
}

/// `c` can serve as the row key: every row holds a value under it that is not
/// null, and no two rows hold the same.
pub open spec fn is_row_key(data: TableModel, c: Seq<char>) -> bool {
    &&& forall|i: int|
        0 <= i < data.len() ==> has_key(#[trigger] data[i], c) && pairs_map(data[i])[c]
            != ValueModel::Null
    &&& forall|i: int, j: int|
        0 <= i < j < data.len() ==> pairs_map(#[trigger] data[i])[c] != pairs_map(
            #[trigger] data[j],
        )[c]
}

/// `key` is the first column, in lexicographic order, that can serve as the
/// row key; none where no column can.
pub open spec fn first_row_key(data: TableModel, key: Option<Seq<char>>) -> bool {
    match key {
        Some(c) => is_row_key(data, c) && forall|k: Seq<char>|
            column_in(data, k) && text_lt(k, c) ==> !is_row_key(data, k),
        None => forall|k: Seq<char>| column_in(data, k) ==> !is_row_key(data, k),
    }
}

fn add_keys<V: Model>(set: &mut StrSet, map: &StrMap<V>)
    ensures
        final(set).set() == old(set).set().union(key_set(map.pairs())),
{
    let n = map.len();
    let ghost p = map.pairs();
    let ghost base = set.set();
    let mut j: usize = 0;
    assert(set.set() =~= base.union(keys_upto_of(p, 0)));
    while j < n
        invariant
            j <= n,
            n == p.len(),
            p == map.pairs(),
            set.set() == base.union(keys_upto_of(p, j as int)),
        decreases n - j,
    {
        let key = map.key_at(j).clone();
        set.insert(key);
        proof {
            assert forall|k: Seq<char>| keys_upto_of(p, j + 1).contains(k) <==> (keys_upto_of(
                p,
                j as int,
            ).contains(k) || k == p[j as int].0) by {
                if keys_upto_of(p, j + 1).contains(k) {
                    let b = choose|b: int| 0 <= b < j + 1 && (#[trigger] p[b]).0 == k;
                    if b < j {
                        assert(p[b].0 == k);
                    }
                }
                if keys_upto_of(p, j as int).contains(k) {
                    let b = choose|b: int| 0 <= b < j && (#[trigger] p[b]).0 == k;
                    assert(p[b].0 == k);
                }
                if k == p[j as int].0 {
                    assert(p[j as int].0 == k);
                }
            }
            assert(set.set() =~= base.union(keys_upto_of(p, j + 1)));
        }
        j += 1;
    }
    proof {
        assert forall|k: Seq<char>| keys_upto_of(p, n as int).contains(k) <==> key_set(p).contains(
            k,
        ) by {
            if keys_upto_of(p, n as int).contains(k) {
                let b = choose|b: int| 0 <= b < n && (#[trigger] p[b]).0 == k;
                assert(p[b].0 == k);
            }
            if has_key(p, k) {
                let b = choose|b: int| 0 <= b < p.len() && (#[trigger] p[b]).0 == k;
                assert(p[b].0 == k);
            }
        }
        assert(keys_upto_of(p, n as int) =~= key_set(p));
    }
}

/// The keys of a sequence of pairs, as a set.
pub open spec fn key_set<M>(p: Seq<(Seq<char>, M)>) -> Set<Seq<char>> {
    Set::new(|k: Seq<char>| has_key(p, k))
}

/// The keys of all rows of per-row metadata, as a set.
pub open spec fn rows_key_set<M>(rows: Seq<Seq<(Seq<char>, M)>>) -> Set<Seq<char>> {
    Set::new(|k: Seq<char>| column_in_rows(rows, k))
}

/// The first `n` keys of a sequence of pairs.
pub open spec fn keys_upto_of<M>(p: Seq<(Seq<char>, M)>, n: int) -> Set<Seq<char>> {
    Set::new(|k: Seq<char>| exists|b: int| 0 <= b < n && (#[trigger] p[b]).0 == k)
}

fn add_row_keys<V: Model>(set: &mut StrSet, rows: &Vec<StrMap<V>>)
    ensures
        final(set).set() == old(set).set().union(rows_key_set(rows.model())),
{
    let ghost m = rows.model();
    let ghost base = set.set();
    let mut i: usize = 0;
    assert(set.set() =~= base.union(rows_upto(m, 0)));
    while i < rows.len()
        invariant
            i <= rows.len(),
            m == rows.model(),
            set.set() == base.union(rows_upto(m, i as int)),
        decreases rows.len() - i,
    {
        add_keys(set, &rows[i]);
        proof {
            assert(m[i as int] == rows@[i as int].pairs());
            assert forall|k: Seq<char>| rows_upto(m, i + 1).contains(k) <==> (rows_upto(
                m,
                i as int,
            ).contains(k) || key_set(m[i as int]).contains(k)) by {
                if rows_upto(m, i + 1).contains(k) {
                    let a = choose|a: int| 0 <= a < i + 1 && has_key(#[trigger] m[a], k);
                    if a < i {
                        assert(has_key(m[a], k));
                    }
                }
                if rows_upto(m, i as int).contains(k) {
                    let a = choose|a: int| 0 <= a < i && has_key(#[trigger] m[a], k);
                    assert(has_key(m[a], k));
                }
                if has_key(m[i as int], k) {
                    assert(rows_upto(m, i + 1).contains(k));
                }
            }
            assert(set.set() =~= base.union(rows_upto(m, i + 1)));
        }
        i += 1;
    }
    proof {
        assert forall|k: Seq<char>| rows_upto(m, i as int).contains(k) <==> rows_key_set(
            m,
        ).contains(k) by {
            if rows_upto(m, i as int).contains(k) {
                let a = choose|a: int| 0 <= a < i && has_key(#[trigger] m[a], k);
                assert(has_key(m[a], k));
            }
            if column_in_rows(m, k) {
                let a = choose|a: int| 0 <= a < m.len() && has_key(#[trigger] m[a], k);
                assert(has_key(m[a], k));
            }
        }
        assert(rows_upto(m, i as int) =~= rows_key_set(m));
    }
}

/// The keys of the first `n` rows of per-row metadata.
pub open spec fn rows_upto<M>(rows: Seq<Seq<(Seq<char>, M)>>, n: int) -> Set<Seq<char>> {
    Set::new(|k: Seq<char>| exists|a: int| 0 <= a < n && has_key(#[trigger] rows[a], k))
}

fn add_items(set: &mut StrSet, other: &StrSet)
    ensures
        final(set).set() == old(set).set().union(other.items().to_set()),
{
    let n = other.len();
    let ghost items = other.items();
    let ghost base = set.set();
    let mut j: usize = 0;
    assert(set.set() =~= base.union(items_upto(items, 0)));
    while j < n
        invariant
            j <= n,
            n == items.len(),
            items == other.items(),
            set.set() == base.union(items_upto(items, j as int)),
        decreases n - j,
    {
        let key = other.item_at(j).clone();
        set.insert(key);
        proof {
            assert forall|k: Seq<char>| items_upto(items, j + 1).contains(k) <==> (items_upto(
                items,
                j as int,
            ).contains(k) || k == items[j as int]) by {
                if items_upto(items, j + 1).contains(k) {
                    let b = choose|b: int| 0 <= b < j + 1 && #[trigger] items[b] == k;
                    if b < j {
                        assert(items[b] == k);
                    }
                }
                if items_upto(items, j as int).contains(k) {
                    let b = choose|b: int| 0 <= b < j && #[trigger] items[b] == k;
                    assert(items[b] == k);
                }
                if k == items[j as int] {
                    assert(items[j as int] == k);
                }
            }
            assert(set.set() =~= base.union(items_upto(items, j + 1)));
        }
        j += 1;
    }
    proof {
        assert forall|k: Seq<char>| items_upto(items, n as int).contains(k) <==> items.to_set().contains(
            k,
        ) by {
            if items_upto(items, n as int).contains(k) {
                let b = choose|b: int| 0 <= b < n && #[trigger] items[b] == k;
                assert(items[b] == k);
                assert(items.contains(k));
            }
            if items.contains(k) {
                let b = choose|b: int| 0 <= b < items.len() && items[b] == k;
                assert(items[b] == k);
            }
        }
        assert(items_upto(items, n as int) =~= items.to_set());
    }
}

/// The first `n` items of a list, as a set.
pub open spec fn items_upto(items: Seq<Seq<char>>, n: int) -> Set<Seq<char>> {
    Set::new(|k: Seq<char>| exists|b: int| 0 <= b < n && #[trigger] items[b] == k)
}

impl JSheetMeta {
    /// Every column that the sheet knows, as a set.
    pub fn known_columns(&self, data: &TableData) -> (r: StrSet)
        ensures
            forall|k: Seq<char>| r.set().contains(k) <==> known_column(self.model(), data.model(), k),
    {
        let mut all = column_set(data);
        add_keys(&mut all, &self.columns);
        add_items(&mut all, &self.comment_columns);
        add_keys(&mut all, &self.summaries);
        add_row_keys(&mut all, &self.cell_formulas);
        add_row_keys(&mut all, &self.cell_styles);
        proof {
            let m = self.model();
            let d = data.model();
            assert forall|k: Seq<char>| all.set().contains(k) <==> known_column(m, d, k) by {
                assert(key_set(m.columns).contains(k) <==> has_key(m.columns, k));
                assert(key_set(m.summaries).contains(k) <==> has_key(m.summaries, k));
                assert(m.comment_columns.to_set().contains(k) <==> m.comment_columns.contains(k));
                assert(rows_key_set(m.cell_formulas).contains(k) <==> column_in_rows(
                    m.cell_formulas,
                    k,
                ));
                assert(rows_key_set(m.cell_styles).contains(k) <==> column_in_rows(m.cell_styles, k));
            }
        }
        all
    }

    /// The columns to show, in display order.
    pub fn display_columns(&self, data: &TableData) -> (r: Vec<String>)
        ensures
            displays(r.model(), self.model(), data.model()),
    {
        let all = self.known_columns(data);
        let ghost m = self.model();
        let ghost d = data.model();
        let ghost order = m.column_order;
        let mut result: Vec<String> = Vec::new();
        let mut ordered = StrSet::new();
        let mut i: usize = 0;
        while i < self.column_order.len()
            invariant
                i <= self.column_order.len(),
                m == self.model(),
                d == data.model(),
                order == self.column_order.model(),
                forall|k: Seq<char>| all.set().contains(k) <==> known_column(m, d, k),
                result.model() == kept(order, m, d, i as int),
                forall|k: Seq<char>| ordered.set().contains(k) <==> result.model().contains(k),
            decreases self.column_order.len() - i,
        {
            let name = &self.column_order[i];
            assert(order[i as int] == name@);
            if all.contains(name.as_str()) {
                let ghost before = result.model();
                result.push(name.clone());
                ordered.insert(name.clone());
                proof {
                    assert(result.model() =~= before.push(name@));
                    assert forall|k: Seq<char>|
                        ordered.set().contains(k) <==> result.model().contains(k) by {
                        if result.model().contains(k) {
                            let b = choose|b: int|
                                0 <= b < result.model().len() && result.model()[b] == k;
                            if b < before.len() {
                                assert(before[b] == k);
                            }
                        }
                        if before.contains(k) {
                            let b = choose|b: int| 0 <= b < before.len() && before[b] == k;
                            assert(result.model()[b] == k);
                        }
                        if k == name@ {
                            assert(result.model()[before.len() as int] == k);
                        }
                    }
                }
            }
            i += 1;
        }
        let ghost head = result.model();
        let n = all.len();
        let ghost items = all.items();
        let ghost src: Seq<int> = Seq::empty();
        let mut j: usize = 0;
        assert(result.model().subrange(0, head.len() as int) =~= head);
        while j < n
            invariant
                j <= n,
                n == items.len(),
                items == all.items(),
                rising(items),
                head == kept(order, m, d, order.len() as int),
                forall|k: Seq<char>| ordered.set().contains(k) <==> head.contains(k),
                result.model().len() == head.len() + src.len(),
                result.model().subrange(0, head.len() as int) == head,
                forall|a: int|
                    0 <= a < src.len() ==> 0 <= #[trigger] src[a] < j && items[src[a]]
                        == result.model()[head.len() + a] && !head.contains(items[src[a]]),
                forall|a: int, b: int| 0 <= a < b < src.len() ==> src[a] < src[b],
                forall|x: int|
                    0 <= x < j && !head.contains(#[trigger] items[x]) ==> exists|a: int|
                        0 <= a < src.len() && src[a] == x,
            decreases n - j,
        {
            let name = all.item_at(j);
            if !ordered.contains(name.as_str()) {
                let ghost before = result.model();
                let ghost old_src = src;
                result.push(name.clone());
                proof {
                    src = src.push(j as int);
                    assert(result.model() =~= before.push(name@));
                    assert(result.model().subrange(0, head.len() as int) =~= before.subrange(
                        0,
                        head.len() as int,
                    ));
                    assert forall|a: int| 0 <= a < src.len() implies 0 <= #[trigger] src[a] < j + 1
                        && items[src[a]] == result.model()[head.len() + a] && !head.contains(
                        items[src[a]],
                    ) by {
                        if a < old_src.len() {
                            assert(src[a] == old_src[a]);
                            assert(result.model()[head.len() + a] == before[head.len() + a]);
                        }
                    }
                    assert forall|a: int, b: int| 0 <= a < b < src.len() implies src[a] < src[b] by {
                        if b < old_src.len() {
                            assert(src[a] == old_src[a] && src[b] == old_src[b]);
                        } else {
                            assert(src[a] == old_src[a]);
                        }
                    }
                    assert forall|x: int|
                        0 <= x < j + 1 && !head.contains(#[trigger] items[x]) implies exists|a: int|
                        0 <= a < src.len() && src[a] == x by {
                        if x < j {
                            let a = choose|a: int| 0 <= a < old_src.len() && old_src[a] == x;
                            assert(src[a] == x);
                        } else {
                            assert(src[old_src.len() as int] == x);
                        }
                    }
                }
            }
            j += 1;
        }
        proof {
            let cols = result.model();
            let tail = cols.subrange(head.len() as int, cols.len() as int);
            assert(tail.len() == src.len());
            assert forall|a: int, b: int| 0 <= a < b < tail.len() implies text_lt(
                #[trigger] tail[a],
                #[trigger] tail[b],
            ) by {
                assert(tail[a] == items[src[a]]);
                assert(tail[b] == items[src[b]]);
            }
            assert forall|k: Seq<char>| tail.contains(k) <==> known_column(m, d, k)
                && !head.contains(k) by {
                if tail.contains(k) {
                    let a = choose|a: int| 0 <= a < tail.len() && tail[a] == k;
                    assert(tail[a] == items[src[a]]);
                    assert(items.contains(k));
                    assert(all.set().contains(k));
                }
                if known_column(m, d, k) && !head.contains(k) {
                    assert(all.set().contains(k));
                    assert(items.contains(k));
                    let x = choose|x: int| 0 <= x < items.len() && items[x] == k;
                    let a = choose|a: int| 0 <= a < src.len() && src[a] == x;
                    assert(tail[a] == k);
                }
            }
        }
        result
    }

    /// Picks the row key where none is set and the table has rows: the first
    /// column, in lexicographic order, whose values are all present, not null
    /// and pairwise distinct. The key stays unset where no column is such.
    pub fn auto_detect_row_key(&mut self, data: &TableData)
        ensures
            final(self).model() == (MetaModel {
                row_key: final(self).model().row_key,
                ..old(self).model()
            }),
            old(self).model().row_key is Some || data@.len() == 0 ==> final(self).model() == old(
                self,
            ).model(),
            old(self).model().row_key is None && data@.len() > 0 ==> first_row_key(
                data.model(),
                final(self).model().row_key,
            ),
    {
        if self.row_key.is_some() || data.len() == 0 {
            return ;
        }
        let columns = derive_columns(data);
        let ghost cols = columns.model();
        let ghost d = data.model();
        let mut i: usize = 0;
        while i < columns.len()
            invariant
                i <= columns.len(),
                cols == columns.model(),
                d == data.model(),
                lists_columns(cols, d),
                self.model() == old(self).model(),
                old(self).model().row_key is None,
                data@.len() > 0,
                forall|x: int| 0 <= x < i ==> !is_row_key(d, #[trigger] cols[x]),
            decreases columns.len() - i,
        {
            assert(cols[i as int] == columns@[i as int]@);
            if column_is_key(data, columns[i].as_str()) {
                self.row_key = Some(columns[i].clone());
                proof {
                    let c = cols[i as int];
                    assert forall|k: Seq<char>| column_in(d, k) && text_lt(k, c) implies !is_row_key(
                        d,
                        k,
                    ) by {
                        assert(cols.contains(k));
                        let x = choose|x: int| 0 <= x < cols.len() && cols[x] == k;
                        if x >= i {
                            lemma_text_order(k, c, c);
                            lemma_text_order(c, k, k);
                        }
                    }
                }
                return ;
            }
            i += 1;
        }
        proof {
            assert forall|k: Seq<char>| column_in(d, k) implies !is_row_key(d, k) by {
                assert(cols.contains(k));
                let x = choose|x: int| 0 <= x < cols.len() && cols[x] == k;
            }
        }
    }
}

/// Whether `column` can serve as the row key of `data`.
pub fn column_is_key(data: &TableData, column: &str) -> (r: bool)
    ensures
        r == is_row_key(data.model(), column@),
{
    let ghost d = data.model();
    let mut i: usize = 0;
    while i < data.len()
        invariant
            i <= data.len(),
            d == data.model(),
            forall|a: int|
                0 <= a < i ==> has_key(#[trigger] d[a], column@) && pairs_map(d[a])[column@]
                    != ValueModel::Null,
            forall|a: int, b: int|
                0 <= a < i && a < b < d.len() ==> pairs_map(#[trigger] d[a])[column@] != pairs_map(
                    #[trigger] d[b],
                )[column@],
        decreases data.len() - i,
    {
        let n = data[i].len();
        assert(d[i as int] == data@[i as int].pairs());
        proof {
            lemma_pairs_map(d[i as int]);
        }
        let value = match data[i].get(column) {
            Some(v) => v,
            None => {
                return false;
            },
        };
        if value.is_null() {
            return false;
        }
        let mut j: usize = i + 1;
        while j < data.len()
            invariant
                i < j <= data.len(),
                d == data.model(),
                has_key(d[i as int], column@),
                value.model() == pairs_map(d[i as int])[column@],
                forall|b: int|
                    i < b < j ==> pairs_map(d[i as int])[column@] != pairs_map(#[trigger] d[b])[column@],
            decreases data.len() - j,
        {
            let m = data[j].len();
            assert(d[j as int] == data@[j as int].pairs());
            proof {
                lemma_pairs_map(d[j as int]);
            }
            match data[j].get(column) {
                Some(other) => {
                    if value.same_as(other) {
                        return false;
                    }
                },
                None => {
                    return false;
                },
            }
            j += 1;
        }
        i += 1;
    }
    true
}

} // verus!

verus! {

/// One more item of the list joins the set of its first items.
pub proof fn lemma_items_upto_step(items: Seq<Seq<char>>, j: int)
    requires
        0 <= j < items.len(),
    ensures
        items_upto(items, j + 1) == items_upto(items, j).insert(items[j]),
        rising(items) ==> !items_upto(items, j).contains(items[j]),
        items_upto(items, 0) == Set::<Seq<char>>::empty(),
{
    assert forall|k: Seq<char>| items_upto(items, j + 1).contains(k) <==> (items_upto(
        items,
        j,
    ).contains(k) || k == items[j]) by {
        if items_upto(items, j + 1).contains(k) {
            let b = choose|b: int| 0 <= b < j + 1 && #[trigger] items[b] == k;
            if b < j {
                assert(items[b] == k);
            }
        }
        if items_upto(items, j).contains(k) {
            let b = choose|b: int| 0 <= b < j && #[trigger] items[b] == k;
            assert(items[b] == k);
        }
        if k == items[j] {
            assert(items[j] == k);
        }
    }
    assert(items_upto(items, j + 1) =~= items_upto(items, j).insert(items[j]));
    if rising(items) && items_upto(items, j).contains(items[j]) {
        let b = choose|b: int| 0 <= b < j && #[trigger] items[b] == items[j];
        lemma_text_order(items[b], items[j], items[j]);
    }
    assert(items_upto(items, 0) =~= Set::<Seq<char>>::empty());
}

/// All items of the list make up the set of its items.
pub proof fn lemma_items_upto_all(items: Seq<Seq<char>>)
    ensures
        forall|k: Seq<char>| items_upto(items, items.len() as int).contains(k) <==> items.contains(k),
{
    assert forall|k: Seq<char>| items_upto(items, items.len() as int).contains(k)
        <==> items.contains(k) by {
        if items_upto(items, items.len() as int).contains(k) {
            let b = choose|b: int| 0 <= b < items.len() && #[trigger] items[b] == k;
            assert(items[b] == k);
        }
        if items.contains(k) {
            let b = choose|b: int| 0 <= b < items.len() && items[b] == k;
            assert(items[b] == k);
        }
    }
}

} // verus!

verus! {

/// One more key of the pairs joins the set of their first keys.
pub proof fn lemma_keys_upto_step<M>(p: Seq<(Seq<char>, M)>, j: int)
    requires
        0 <= j < p.len(),
    ensures
        keys_upto_of(p, j + 1) == keys_upto_of(p, j).insert(p[j].0),
        crate::strmap::sorted_keys(p) ==> !keys_upto_of(p, j).contains(p[j].0),
        keys_upto_of(p, 0) == Set::<Seq<char>>::empty(),
{
    assert forall|k: Seq<char>| keys_upto_of(p, j + 1).contains(k) <==> (keys_upto_of(
        p,
        j,
    ).contains(k) || k == p[j].0) by {
        if keys_upto_of(p, j + 1).contains(k) {
            let b = choose|b: int| 0 <= b < j + 1 && (#[trigger] p[b]).0 == k;
            if b < j {
                assert(p[b].0 == k);
            }
        }
        if keys_upto_of(p, j).contains(k) {
            let b = choose|b: int| 0 <= b < j && (#[trigger] p[b]).0 == k;
            assert(p[b].0 == k);
        }
        if k == p[j].0 {
            assert(p[j].0 == k);
        }
    }
    assert(keys_upto_of(p, j + 1) =~= keys_upto_of(p, j).insert(p[j].0));
    if crate::strmap::sorted_keys(p) && keys_upto_of(p, j).contains(p[j].0) {
        let b = choose|b: int| 0 <= b < j && (#[trigger] p[b]).0 == p[j].0;
        lemma_text_order(p[b].0, p[j].0, p[j].0);
    }
    assert(keys_upto_of(p, 0) =~= Set::<Seq<char>>::empty());
}

/// All keys of the pairs make up the set of their keys.
pub proof fn lemma_keys_upto_all<M>(p: Seq<(Seq<char>, M)>)
    ensures
        forall|k: Seq<char>| keys_upto_of(p, p.len() as int).contains(k) <==> has_key(p, k),
{
    assert forall|k: Seq<char>| keys_upto_of(p, p.len() as int).contains(k) <==> has_key(
        p,
        k,
    ) by {
        if keys_upto_of(p, p.len() as int).contains(k) {
            let b = choose|b: int| 0 <= b < p.len() && (#[trigger] p[b]).0 == k;
            assert(p[b].0 == k);
        }
        if has_key(p, k) {
            let b = choose|b: int| 0 <= b < p.len() && (#[trigger] p[b]).0 == k;
            assert(p[b].0 == k);
        }
    }
}

/// A key that comes before the key at `j` stands among the first `j` keys.
pub proof fn lemma_smaller_key_is_earlier<M>(p: Seq<(Seq<char>, M)>, j: int, k: Seq<char>)
    requires
        crate::strmap::sorted_keys(p),
        0 <= j < p.len(),
        has_key(p, k),
        text_lt(k, p[j].0),
    ensures
        keys_upto_of(p, j).contains(k),
{
    let b = choose|b: int| 0 <= b < p.len() && (#[trigger] p[b]).0 == k;
    if b >= j {
        lemma_text_order(k, p[j].0, p[j].0);
        lemma_text_order(p[j].0, k, k);
    }
    assert(p[b].0 == k);
}

} // verus!
