//! The sidecar file: how metadata is laid out on disk, and how the per-row
//! part of it finds its rows again.
//!
//! While a sheet is open, formulas, styles and comment values stand in lists
//! beside the rows, one entry per row. On disk they are filed under each
//! row's key text where the sheet has a row key, so that they follow their
//! rows when the data file is reordered by other hands. Without a row key they
//! are written as the lists they are.

use vstd::prelude::*;
use vstd::string::StringExecFns;
use crate::data_model::{Row, RowModel, TableData, TableModel};
use crate::jsheet::{ColumnConstraint, ColumnStyle, ConditionalFormat, FormatModel, JSheetMeta, MetaModel, RuleModel, StyleModel, SummaryKind, ValidationRule};
use crate::codec::{
    is_part, joined, lemma_field_of_joined, maybe, member_if, members_model, optional, or_default,
    push_maybe, push_when, read_optional, read_or, Json,
};
use crate::json_io::{decoded, json_valid, value_from_text, JsonIoError, MAX_DEPTH};
use crate::value::{pretty_text, to_pretty_text, Value, ValueModel};
use crate::model::Model;
use crate::number::{decimal_text, Number, SCALE};
use crate::strmap::{has_key, lemma_pairs_map, pairs_map, sorted_keys, StrMap, StrSet};
use crate::value::{key_text, value_to_key_string};

verus! {

broadcast use vstd::std_specs::vec::group_vec_axioms;

/// Why a sheet could not be loaded or saved.
#[derive(Debug)]
pub enum JSheetIoError {
    /// The data file failed.
    Json(JsonIoError),
    /// The sidecar could not be read or written.
    Io(String),
    /// The sidecar is not what a sidecar looks like.
    Parse(String),
}

/// The sidecar as it stands on disk.
#[derive(Debug, PartialEq)]
pub struct JSheetFile {
    pub columns: StrMap<ColumnConstraint>,
    pub column_order: Vec<String>,
    pub row_key: Option<String>,
    pub comment_columns: StrSet,
    pub summaries: StrMap<SummaryKind>,
    pub keyed_cell_formulas: StrMap<StrMap<String>>,
    pub keyed_cell_styles: StrMap<StrMap<ColumnStyle>>,
    pub keyed_comment_rows: StrMap<Row>,
    pub cell_formulas: Vec<StrMap<String>>,
    pub cell_styles: Vec<StrMap<ColumnStyle>>,
    pub comment_rows: Vec<Row>,
    pub conditional_formats: Vec<ConditionalFormat>,
    pub validation: StrMap<ValidationRule>,
    pub frozen_columns: Option<usize>,
}

pub struct FileModel {
    pub columns: Seq<(Seq<char>, ColumnConstraint)>,
    pub column_order: Seq<Seq<char>>,
    pub row_key: Option<Seq<char>>,
    pub comment_columns: Seq<Seq<char>>,
    pub summaries: Seq<(Seq<char>, SummaryKind)>,
    pub keyed_cell_formulas: Seq<(Seq<char>, Seq<(Seq<char>, Seq<char>)>)>,
    pub keyed_cell_styles: Seq<(Seq<char>, Seq<(Seq<char>, StyleModel)>)>,
    pub keyed_comment_rows: Seq<(Seq<char>, RowModel)>,
    pub cell_formulas: Seq<Seq<(Seq<char>, Seq<char>)>>,
    pub cell_styles: Seq<Seq<(Seq<char>, StyleModel)>>,
    pub comment_rows: Seq<RowModel>,
    pub conditional_formats: Seq<FormatModel>,
    pub validation: Seq<(Seq<char>, RuleModel)>,
    pub frozen_columns: Option<usize>,
}

impl Model for JSheetFile {
    type M = FileModel;

    open spec fn model(&self) -> FileModel {
        FileModel {
            columns: self.columns.model(),
            column_order: self.column_order.model(),
            row_key: self.row_key.model(),
            comment_columns: self.comment_columns.model(),
            summaries: self.summaries.model(),
            keyed_cell_formulas: self.keyed_cell_formulas.model(),
            keyed_cell_styles: self.keyed_cell_styles.model(),
            keyed_comment_rows: self.keyed_comment_rows.model(),
            cell_formulas: self.cell_formulas.model(),
            cell_styles: self.cell_styles.model(),
            comment_rows: self.comment_rows.model(),
            conditional_formats: self.conditional_formats.model(),
            validation: self.validation.model(),
            frozen_columns: self.frozen_columns,
        }
    }

    fn copy_of(&self) -> (r: Self) {
        JSheetFile {
            columns: self.columns.copy_of(),
            column_order: self.column_order.copy_of(),
            row_key: self.row_key.copy_of(),
            comment_columns: self.comment_columns.copy_of(),
            summaries: self.summaries.copy_of(),
            keyed_cell_formulas: self.keyed_cell_formulas.copy_of(),
            keyed_cell_styles: self.keyed_cell_styles.copy_of(),
            keyed_comment_rows: self.keyed_comment_rows.copy_of(),
            cell_formulas: self.cell_formulas.copy_of(),
            cell_styles: self.cell_styles.copy_of(),
            comment_rows: self.comment_rows.copy_of(),
            conditional_formats: self.conditional_formats.copy_of(),
            validation: self.validation.copy_of(),
            frozen_columns: self.frozen_columns,
        }
    }

    fn same_as(&self, other: &Self) -> (b: bool) {
        self.columns.same_as(&other.columns) && self.column_order.same_as(&other.column_order)
            && self.row_key.same_as(&other.row_key) && self.comment_columns.same_as(
            &other.comment_columns,
        ) && self.summaries.same_as(&other.summaries) && self.keyed_cell_formulas.same_as(
            &other.keyed_cell_formulas,
        ) && self.keyed_cell_styles.same_as(&other.keyed_cell_styles)
            && self.keyed_comment_rows.same_as(&other.keyed_comment_rows)
            && self.cell_formulas.same_as(&other.cell_formulas) && self.cell_styles.same_as(
            &other.cell_styles,
        ) && self.comment_rows.same_as(&other.comment_rows) && self.conditional_formats.same_as(
            &other.conditional_formats,
        ) && self.validation.same_as(&other.validation) && self.frozen_columns.same_as(
            &other.frozen_columns,
        )
    }
}

/// The key text of row `i`: the text of what it holds under the key column.
pub open spec fn row_key_text(data: TableModel, key: Seq<char>, i: int) -> Option<Seq<char>> {
    if 0 <= i < data.len() && has_key(data[i], key) {
        Some(key_text(pairs_map(data[i])[key]))
    } else {
        None
    }
}

/// The last row below `n` whose key text is `k`.
pub open spec fn last_index(data: TableModel, key: Seq<char>, k: Seq<char>, n: int) -> Option<int>
    decreases n,
{
    if n <= 0 {
        None
    } else if row_key_text(data, key, n - 1) == Some(k) {
        Some(n - 1)
    } else {
        last_index(data, key, k, n - 1)
    }
}

/// What row `i` gets back from what was filed by key: the entry under its key
/// text, where it is the last row with that text; else nothing.
pub open spec fn rehydrated<M>(
    keyed: Seq<(Seq<char>, Seq<(Seq<char>, M)>)>,
    data: TableModel,
    key: Seq<char>,
    i: int,
) -> Seq<(Seq<char>, M)> {
    match row_key_text(data, key, i) {
        Some(k) => if last_index(data, key, k, data.len() as int) == Some(i) && has_key(keyed, k) {
            pairs_map(keyed)[k]
        } else {
            Seq::empty()
        },
        None => Seq::empty(),
    }
}

/// Per-row metadata for `data`, brought back from what was filed by key.
pub open spec fn rehydrated_rows<M>(
    keyed: Seq<(Seq<char>, Seq<(Seq<char>, M)>)>,
    data: TableModel,
    key: Seq<char>,
) -> Seq<Seq<(Seq<char>, M)>> {
    Seq::new(data.len(), |i: int| rehydrated(keyed, data, key, i))
}

/// The metadata that a sidecar stands for beside the rows `data`.
pub open spec fn meta_of_file(f: FileModel, data: TableModel) -> MetaModel {
    MetaModel {
        columns: f.columns,
        column_order: f.column_order,
        row_key: f.row_key,
        comment_columns: f.comment_columns,
        comment_rows: match f.row_key {
            Some(key) => rehydrated_rows(f.keyed_comment_rows, data, key),
            None => f.comment_rows,
        },
        summaries: f.summaries,
        cell_formulas: match f.row_key {
            Some(key) => rehydrated_rows(f.keyed_cell_formulas, data, key),
            None => f.cell_formulas,
        },
        cell_styles: match f.row_key {
            Some(key) => rehydrated_rows(f.keyed_cell_styles, data, key),
            None => f.cell_styles,
        },
        conditional_formats: f.conditional_formats,
        validation: f.validation,
        frozen_columns: f.frozen_columns,
    }
}

/// The text under which the metadata of row `i` is filed: the row's key
/// text, or its index in decimal where it has nothing under the key column.
pub open spec fn file_key(data: TableModel, key: Seq<char>, i: int) -> Seq<char> {
    match row_key_text(data, key, i) {
        Some(k) => k,
        None => decimal_text(i * SCALE),
    }
}

/// The last row below `n` that has metadata to file under `k`.
pub open spec fn last_filed<M>(
    rows: Seq<Seq<(Seq<char>, M)>>,
    data: TableModel,
    key: Seq<char>,
    k: Seq<char>,
    n: int,
) -> Option<int>
    decreases n,
{
    if n <= 0 {
        None
    } else if n <= data.len() && n <= rows.len() && rows[n - 1].len() > 0 && file_key(
        data,
        key,
        n - 1,
    ) == k {
        Some(n - 1)
    } else {
        last_filed(rows, data, key, k, n - 1)
    }
}

/// Per-row metadata as it is filed by key: each text holds what the last row
/// with that text has, and rows with nothing are left out.
pub open spec fn filed<M>(rows: Seq<Seq<(Seq<char>, M)>>, data: TableModel, key: Seq<char>) -> Map<
    Seq<char>,
    Seq<(Seq<char>, M)>,
> {
    Map::new(
        |k: Seq<char>| last_filed(rows, data, key, k, data.len() as int) is Some,
        |k: Seq<char>| rows[last_filed(rows, data, key, k, data.len() as int)->0],
    )
}

/// `filed`, for the first `n` rows.
pub open spec fn filed_upto<M>(
    rows: Seq<Seq<(Seq<char>, M)>>,
    data: TableModel,
    key: Seq<char>,
    n: int,
) -> Map<Seq<char>, Seq<(Seq<char>, M)>> {
    Map::new(
        |k: Seq<char>| last_filed(rows, data, key, k, n) is Some,
        |k: Seq<char>| rows[last_filed(rows, data, key, k, n)->0],
    )
}

/// The table from key text to row, for the first `n` rows.
pub open spec fn index_upto(data: TableModel, key: Seq<char>, n: int) -> Map<Seq<char>, usize> {
    Map::new(
        |k: Seq<char>| last_index(data, key, k, n) is Some,
        |k: Seq<char>| last_index(data, key, k, n)->0 as usize,
    )
}

/// What a sidecar written from `m` beside the rows `data` holds.
pub open spec fn file_holds(f: FileModel, m: MetaModel, data: TableModel) -> bool {
    &&& f.columns == m.columns
    &&& f.column_order == m.column_order
    &&& f.row_key == m.row_key
    &&& f.comment_columns == m.comment_columns
    &&& f.summaries == m.summaries
    &&& f.conditional_formats == m.conditional_formats
    &&& f.validation == m.validation
    &&& f.frozen_columns == m.frozen_columns
    &&& match m.row_key {
        Some(key) => {
            &&& f.cell_formulas.len() == 0
            &&& f.cell_styles.len() == 0
            &&& f.comment_rows.len() == 0
            &&& sorted_keys(f.keyed_cell_formulas)
            &&& sorted_keys(f.keyed_cell_styles)
            &&& sorted_keys(f.keyed_comment_rows)
            &&& pairs_map(f.keyed_cell_formulas) == filed(m.cell_formulas, data, key)
            &&& pairs_map(f.keyed_cell_styles) == filed(m.cell_styles, data, key)
            &&& pairs_map(f.keyed_comment_rows) == filed(m.comment_rows, data, key)
        },
        None => {
            &&& f.cell_formulas == m.cell_formulas
            &&& f.cell_styles == m.cell_styles
            &&& f.comment_rows == m.comment_rows
            &&& f.keyed_cell_formulas.len() == 0
            &&& f.keyed_cell_styles.len() == 0
            &&& f.keyed_comment_rows.len() == 0
        },
    }
}

/// The path of the sidecar of a data file: the path with `.jsheet` behind it.
pub fn sidecar_path_for_json(json_path: &str) -> (r: String)
    ensures
        r@ == json_path@ + ".jsheet"@,
{
    let mut out = json_path.to_owned();
    out.append(".jsheet");
    out
}

/// The text under which the metadata of the row at `index` is filed.
fn key_for_row(row: &Row, key: &str, index: usize) -> (r: String)
    ensures
        r@ == match crate::jsheet::entry_of(row.pairs(), key@) {
            Some(v) => key_text(v),
            None => decimal_text(index * SCALE),
        },
{
    let n = row.len();
    proof {
        lemma_pairs_map(row.pairs());
    }
    match row.get(key) {
        Some(v) => value_to_key_string(v),
        None => Number::from_u64(index as u64).to_text(),
    }
}

/// The table from key text to the last row that has it.
fn key_index(data: &TableData, key: &str) -> (r: StrMap<usize>)
    ensures
        r.map() == index_upto(data.model(), key@, data@.len() as int),
{
    let ghost d = data.model();
    let mut table: StrMap<usize> = StrMap::new();
    assert(table.map() =~= index_upto(d, key@, 0));
    let mut i: usize = 0;
    while i < data.len()
        invariant
            i <= data.len(),
            d == data.model(),
            table.map() == index_upto(d, key@, i as int),
        decreases data.len() - i,
    {
        assert(d[i as int] == data@[i as int].pairs());
        let n = data[i].len();
        proof {
            lemma_pairs_map(d[i as int]);
        }
        match data[i].get(key) {
            Some(v) => {
                table.insert(value_to_key_string(v), i);
            },
            None => {},
        }
        assert(table.map() =~= index_upto(d, key@, i + 1));
        i += 1;
    }
    table
}

fn rehydrate<V: Model>(keyed: &StrMap<StrMap<V>>, data: &TableData, key: &str) -> (r: Vec<
    StrMap<V>,
>)
    ensures
        r.model() == rehydrated_rows(keyed.model(), data.model(), key@),
{
    let ghost d = data.model();
    let ghost km = keyed.model();
    let table = key_index(data, key);
    let kl = keyed.len();
    let tl = table.len();
    proof {
        lemma_pairs_map(km);
    }
    let mut out: Vec<StrMap<V>> = Vec::new();
    let mut i: usize = 0;
    while i < data.len()
        invariant
            i <= data.len(),
            d == data.model(),
            km == keyed.model(),
            km == keyed.pairs(),
            sorted_keys(km),
            table.map() == index_upto(d, key@, data@.len() as int),
            out@.len() == i,
            forall|a: int| 0 <= a < i ==> #[trigger] out.model()[a] == rehydrated(km, d, key@, a),
        decreases data.len() - i,
    {
        assert(d[i as int] == data@[i as int].pairs());
        let n = data[i].len();
        proof {
            lemma_pairs_map(d[i as int]);
            lemma_pairs_map(km);
        }
        let mut row: StrMap<V> = StrMap::new();
        proof {
            match row_key_text(d, key@, i as int) {
                Some(k) => {
                    lemma_last_index_bounds(d, key@, k, data@.len() as int);
                },
                None => {},
            }
        }
        match data[i].get(key) {
            Some(v) => {
                let text = value_to_key_string(v);
                let is_last = match table.get(text.as_str()) {
                    Some(at) => *at == i,
                    None => false,
                };
                if is_last {
                    match keyed.get(text.as_str()) {
                        Some(entry) => {
                            row = entry.copy_of();
                        },
                        None => {},
                    }
                }
            },
            None => {},
        }
        assert(row.model() == rehydrated(km, d, key@, i as int));
        let ghost before = out.model();
        out.push(row);
        assert forall|a: int| 0 <= a < i + 1 implies #[trigger] out.model()[a] == rehydrated(
            km,
            d,
            key@,
            a,
        ) by {
            if a < i {
                assert(out.model()[a] == before[a]);
            }
        }
        i += 1;
    }
    assert(out.model() =~= rehydrated_rows(km, d, key@));
    out
}

fn file_rows<V: Model>(rows: &Vec<StrMap<V>>, data: &TableData, key: &str) -> (r: StrMap<
    StrMap<V>,
>)
    ensures
        r.map() == filed(rows.model(), data.model(), key@),
        sorted_keys(r.pairs()),
{
    let ghost d = data.model();
    let ghost rm = rows.model();
    let mut out: StrMap<StrMap<V>> = StrMap::new();
    assert(out.map() =~= filed_upto(rm, d, key@, 0));
    let mut i: usize = 0;
    while i < data.len()
        invariant
            i <= data.len(),
            d == data.model(),
            rm == rows.model(),
            out.map() == filed_upto(rm, d, key@, i as int),
        decreases data.len() - i,
    {
        assert(d[i as int] == data@[i as int].pairs());
        if i < rows.len() {
            assert(rm[i as int] == rows@[i as int].pairs());
            if !rows[i].is_empty() {
                let text = key_for_row(&data[i], key, i);
                out.insert(text, rows[i].copy_of());
            }
        }
        assert(out.map() =~= filed_upto(rm, d, key@, i + 1));
        i += 1;
    }
    let n = out.len();
    out
}

impl JSheetFile {
    /// The metadata that the sidecar stands for beside the rows `data`. With a
    /// row key, each row gets what is filed under its key text; what is filed
    /// under a text that no row has is dropped, and a row without an entry
    /// gets none. Where several rows share a key text, the last of them gets
    /// the entry.
    pub fn into_meta(self, data: &TableData) -> (r: JSheetMeta)
        ensures
            r.model() == meta_of_file(self.model(), data.model()),
    {
        let (cell_formulas, cell_styles, comment_rows) = match &self.row_key {
            Some(key) => (
                rehydrate(&self.keyed_cell_formulas, data, key.as_str()),
                rehydrate(&self.keyed_cell_styles, data, key.as_str()),
                rehydrate(&self.keyed_comment_rows, data, key.as_str()),
            ),
            None => (self.cell_formulas, self.cell_styles, self.comment_rows),
        };
        JSheetMeta {
            columns: self.columns,
            column_order: self.column_order,
            row_key: self.row_key,
            comment_columns: self.comment_columns,
            comment_rows,
            summaries: self.summaries,
            cell_formulas,
            cell_styles,
            conditional_formats: self.conditional_formats,
            validation: self.validation,
            frozen_columns: self.frozen_columns,
        }
    }

    /// The sidecar for `meta` beside the rows `data`. With a row key, the
    /// per-row metadata is filed under each row's key text, rows with nothing
    /// left out, and the lists stay empty; without one, the lists are written.
    pub fn from_meta(meta: &JSheetMeta, data: &TableData) -> (r: JSheetFile)
        ensures
            file_holds(r.model(), meta.model(), data.model()),
    {
        let (keyed_formulas, keyed_styles, keyed_comments, formulas, styles, comments) =
            match &meta.row_key {
            Some(key) => (
                file_rows(&meta.cell_formulas, data, key.as_str()),
                file_rows(&meta.cell_styles, data, key.as_str()),
                file_rows(&meta.comment_rows, data, key.as_str()),
                Vec::new(),
                Vec::new(),
                Vec::new(),
            ),
            None => (
                StrMap::new(),
                StrMap::new(),
                StrMap::new(),
                meta.cell_formulas.copy_of(),
                meta.cell_styles.copy_of(),
                meta.comment_rows.copy_of(),
            ),
        };
        JSheetFile {
            columns: meta.columns.copy_of(),
            column_order: meta.column_order.copy_of(),
            row_key: meta.row_key.copy_of(),
            comment_columns: meta.comment_columns.copy_of(),
            summaries: meta.summaries.copy_of(),
            keyed_cell_formulas: keyed_formulas,
            keyed_cell_styles: keyed_styles,
            keyed_comment_rows: keyed_comments,
            cell_formulas: formulas,
            cell_styles: styles,
            comment_rows: comments,
            conditional_formats: meta.conditional_formats.copy_of(),
            validation: meta.validation.copy_of(),
            frozen_columns: meta.frozen_columns,
        }
    }
}

proof fn lemma_last_index_bounds(data: TableModel, key: Seq<char>, k: Seq<char>, n: int)
    ensures
        last_index(data, key, k, n) is Some ==> 0 <= last_index(data, key, k, n)->0 < n,
    decreases n,
{
    if n > 0 {
        lemma_last_index_bounds(data, key, k, n - 1);
    }
}

/// Every row has a key text, and no two rows have the same.
pub open spec fn keys_tell_rows_apart(data: TableModel, key: Seq<char>) -> bool {
    &&& forall|i: int| 0 <= i < data.len() ==> (#[trigger] row_key_text(data, key, i)) is Some
    &&& forall|i: int, j: int|
        0 <= i < j < data.len() ==> #[trigger] row_key_text(data, key, i) != #[trigger] row_key_text(
            data,
            key,
            j,
        )
}

/// `order` lists each of the indices below its length once.
pub open spec fn is_reordering(order: Seq<int>) -> bool {
    &&& forall|i: int| 0 <= i < order.len() ==> 0 <= #[trigger] order[i] < order.len()
    &&& forall|i: int, j: int| 0 <= i < j < order.len() ==> #[trigger] order[i] != #[trigger] order[j]
}

proof fn lemma_last_index_unique(data: TableModel, key: Seq<char>, i: int, n: int)
    requires
        keys_tell_rows_apart(data, key),
        0 <= i < data.len(),
        0 <= n <= data.len(),
    ensures
        last_index(data, key, row_key_text(data, key, i)->0, n) == if i < n {
            Some(i)
        } else {
            None::<int>
        },
    decreases n,
{
    if n > 0 {
        lemma_last_index_unique(data, key, i, n - 1);
        if n - 1 != i {
            if n - 1 < i {
                assert(row_key_text(data, key, n - 1) != row_key_text(data, key, i));
            } else {
                assert(row_key_text(data, key, i) != row_key_text(data, key, n - 1));
            }
        }
    }
}

proof fn lemma_last_filed_unique<M>(
    rows: Seq<Seq<(Seq<char>, M)>>,
    data: TableModel,
    key: Seq<char>,
    i: int,
    n: int,
)
    requires
        keys_tell_rows_apart(data, key),
        rows.len() == data.len(),
        0 <= i < data.len(),
        0 <= n <= data.len(),
    ensures
        last_filed(rows, data, key, row_key_text(data, key, i)->0, n) == if i < n && rows[i].len()
            > 0 {
            Some(i)
        } else {
            None::<int>
        },
    decreases n,
{
    if n > 0 {
        lemma_last_filed_unique(rows, data, key, i, n - 1);
        if n - 1 != i {
            if n - 1 < i {
                assert(row_key_text(data, key, n - 1) != row_key_text(data, key, i));
            } else {
                assert(row_key_text(data, key, i) != row_key_text(data, key, n - 1));
            }
        }
    }
}

/// Per-row metadata finds its rows again after a reordering. Let a table
/// have a key column that tells its rows apart, and let per-row metadata with
/// one entry per row be filed by key. If the rows then come back in another
/// order, row `i` of what is brought back is what the row now at `i` had
/// before, wherever it stood.
pub proof fn lemma_metadata_follows_rows<M>(
    rows: Seq<Seq<(Seq<char>, M)>>,
    data: TableModel,
    key: Seq<char>,
    keyed: Seq<(Seq<char>, Seq<(Seq<char>, M)>)>,
    order: Seq<int>,
    reordered: TableModel,
)
    requires
        keys_tell_rows_apart(data, key),
        rows.len() == data.len(),
        sorted_keys(keyed),
        pairs_map(keyed) == filed(rows, data, key),
        is_reordering(order),
        order.len() == data.len(),
        reordered.len() == data.len(),
        forall|i: int| 0 <= i < data.len() ==> #[trigger] reordered[i] == data[order[i]],
    ensures
        forall|i: int|
            0 <= i < data.len() ==> #[trigger] rehydrated_rows(keyed, reordered, key)[i]
                == rows[order[i]],
{
    assert forall|i: int, j: int| 0 <= i < j < reordered.len() implies #[trigger] row_key_text(
        reordered,
        key,
        i,
    ) != #[trigger] row_key_text(reordered, key, j) by {
        assert(reordered[i] == data[order[i]]);
        assert(reordered[j] == data[order[j]]);
        assert(row_key_text(reordered, key, i) == row_key_text(data, key, order[i]));
        assert(row_key_text(reordered, key, j) == row_key_text(data, key, order[j]));
        if order[i] < order[j] {
            assert(row_key_text(data, key, order[i]) != row_key_text(data, key, order[j]));
        } else {
            assert(row_key_text(data, key, order[j]) != row_key_text(data, key, order[i]));
        }
    }
    assert forall|i: int| 0 <= i < reordered.len() implies (#[trigger] row_key_text(
        reordered,
        key,
        i,
    )) is Some by {
        assert(reordered[i] == data[order[i]]);
        assert(row_key_text(reordered, key, i) == row_key_text(data, key, order[i]));
    }
    assert forall|i: int| 0 <= i < data.len() implies #[trigger] rehydrated_rows(
        keyed,
        reordered,
        key,
    )[i] == rows[order[i]] by {
        let src = order[i];
        assert(reordered[i] == data[src]);
        let k = row_key_text(reordered, key, i)->0;
        assert(row_key_text(data, key, src) == Some(k));
        lemma_last_index_unique(reordered, key, i, reordered.len() as int);
        lemma_last_filed_unique(rows, data, key, src, data.len() as int);
        lemma_pairs_map(keyed);
        if rows[src].len() > 0 {
            assert(pairs_map(keyed).contains_key(k));
            assert(pairs_map(keyed)[k] == rows[src]);
        } else {
            assert(!pairs_map(keyed).contains_key(k));
            assert(rows[src] =~= Seq::<(Seq<char>, M)>::empty());
        }
    }
}

} // verus!

verus! {

proof fn lemma_rows_come_back<M>(
    rows: Seq<Seq<(Seq<char>, M)>>,
    data: TableModel,
    key: Seq<char>,
    keyed: Seq<(Seq<char>, Seq<(Seq<char>, M)>)>,
)
    requires
        keys_tell_rows_apart(data, key),
        rows.len() == data.len(),
        sorted_keys(keyed),
        pairs_map(keyed) == filed(rows, data, key),
    ensures
        rehydrated_rows(keyed, data, key) == rows,
{
    let order = Seq::new(data.len(), |i: int| i);
    lemma_metadata_follows_rows(rows, data, key, keyed, order, data);
    assert forall|i: int| 0 <= i < data.len() implies #[trigger] rehydrated_rows(keyed, data, key)[i]
        == rows[i] by {
        assert(order[i] == i);
    }
    assert(rehydrated_rows(keyed, data, key) =~= rows);
}

/// A sidecar that is written and read back beside the same rows gives the
/// metadata it was written from: always without a row key, and with one where
/// the key column tells the rows apart and the per-row metadata has an entry
/// for each row.
pub proof fn lemma_sidecar_round_trip(m: MetaModel, f: FileModel, data: TableModel)
    requires
        file_holds(f, m, data),
        m.row_key is Some ==> keys_tell_rows_apart(data, m.row_key->0) && m.cell_formulas.len()
            == data.len() && m.cell_styles.len() == data.len() && m.comment_rows.len()
            == data.len(),
    ensures
        meta_of_file(f, data) == m,
{
    match m.row_key {
        Some(key) => {
            lemma_rows_come_back(m.cell_formulas, data, key, f.keyed_cell_formulas);
            lemma_rows_come_back(m.cell_styles, data, key, f.keyed_cell_styles);
            lemma_rows_come_back(m.comment_rows, data, key, f.keyed_comment_rows);
        },
        None => {},
    }
}

} // verus!

verus! {

/// The members of a sidecar as parts, in the order they are written. Those
/// that may be left out are left out where they are empty or unset.
pub open spec fn sidecar_parts(f: FileModel) -> Seq<Seq<(Seq<char>, ValueModel)>> {
    seq![
        member_if(true, "columns"@, StrMap::<ColumnConstraint>::json_of(f.columns)),
        member_if(
            f.column_order.len() > 0,
            "column_order"@,
            Vec::<String>::json_of(f.column_order),
        ),
        maybe::<String>("row_key"@, f.row_key),
        member_if(true, "comment_columns"@, StrSet::json_of(f.comment_columns)),
        member_if(true, "summaries"@, StrMap::<SummaryKind>::json_of(f.summaries)),
        member_if(
            f.keyed_cell_formulas.len() > 0,
            "keyed_cell_formulas"@,
            StrMap::<StrMap<String>>::json_of(f.keyed_cell_formulas),
        ),
        member_if(
            f.keyed_cell_styles.len() > 0,
            "keyed_cell_styles"@,
            StrMap::<StrMap<ColumnStyle>>::json_of(f.keyed_cell_styles),
        ),
        member_if(
            f.keyed_comment_rows.len() > 0,
            "keyed_comment_rows"@,
            StrMap::<Row>::json_of(f.keyed_comment_rows),
        ),
        member_if(
            f.cell_formulas.len() > 0,
            "cell_formulas"@,
            Vec::<StrMap<String>>::json_of(f.cell_formulas),
        ),
        member_if(
            f.cell_styles.len() > 0,
            "cell_styles"@,
            Vec::<StrMap<ColumnStyle>>::json_of(f.cell_styles),
        ),
        member_if(f.comment_rows.len() > 0, "comment_rows"@, Vec::<Row>::json_of(f.comment_rows)),
        member_if(
            f.conditional_formats.len() > 0,
            "conditional_formats"@,
            Vec::<ConditionalFormat>::json_of(f.conditional_formats),
        ),
        member_if(
            f.validation.len() > 0,
            "validation"@,
            StrMap::<ValidationRule>::json_of(f.validation),
        ),
        maybe::<usize>("frozen_columns"@, f.frozen_columns),
    ]
}

/// The names of the members of a sidecar, in the order they are written.
pub open spec fn sidecar_names() -> Seq<Seq<char>> {
    seq![
        "columns"@,
        "column_order"@,
        "row_key"@,
        "comment_columns"@,
        "summaries"@,
        "keyed_cell_formulas"@,
        "keyed_cell_styles"@,
        "keyed_comment_rows"@,
        "cell_formulas"@,
        "cell_styles"@,
        "comment_rows"@,
        "conditional_formats"@,
        "validation"@,
        "frozen_columns"@,
    ]
}

/// The members of a sidecar, in the order they are written.
pub open spec fn sidecar_members(f: FileModel) -> Seq<(Seq<char>, ValueModel)> {
    joined(sidecar_parts(f), 14)
}

/// The sidecar that the members of an object stand for. A member that is
/// missing stands for nothing; a member of another name is passed over; a
/// member of the wrong shape makes the whole unreadable.
pub open spec fn sidecar_of_members(ms: Seq<(Seq<char>, ValueModel)>) -> Option<FileModel> {
    match (
        or_default::<StrMap<ColumnConstraint>>(ms, "columns"@, Seq::empty()),
        or_default::<Vec<String>>(ms, "column_order"@, Seq::empty()),
        optional::<String>(ms, "row_key"@),
        or_default::<StrSet>(ms, "comment_columns"@, Seq::empty()),
        or_default::<StrMap<SummaryKind>>(ms, "summaries"@, Seq::empty()),
        sidecar_rows_of_members(ms),
        or_default::<Vec<ConditionalFormat>>(ms, "conditional_formats"@, Seq::empty()),
        or_default::<StrMap<ValidationRule>>(ms, "validation"@, Seq::empty()),
        optional::<usize>(ms, "frozen_columns"@),
    ) {
        (
            Some(columns),
            Some(column_order),
            Some(row_key),
            Some(comment_columns),
            Some(summaries),
            Some(rows),
            Some(conditional_formats),
            Some(validation),
            Some(frozen_columns),
        ) => Some(
            FileModel {
                columns,
                column_order,
                row_key,
                comment_columns,
                summaries,
                keyed_cell_formulas: rows.keyed_cell_formulas,
                keyed_cell_styles: rows.keyed_cell_styles,
                keyed_comment_rows: rows.keyed_comment_rows,
                cell_formulas: rows.cell_formulas,
                cell_styles: rows.cell_styles,
                comment_rows: rows.comment_rows,
                conditional_formats,
                validation,
                frozen_columns,
            },
        ),
        _ => None,
    }
}

/// The per-row part of a sidecar.
pub struct FileRowsModel {
    pub keyed_cell_formulas: Seq<(Seq<char>, Seq<(Seq<char>, Seq<char>)>)>,
    pub keyed_cell_styles: Seq<(Seq<char>, Seq<(Seq<char>, StyleModel)>)>,
    pub keyed_comment_rows: Seq<(Seq<char>, RowModel)>,
    pub cell_formulas: Seq<Seq<(Seq<char>, Seq<char>)>>,
    pub cell_styles: Seq<Seq<(Seq<char>, StyleModel)>>,
    pub comment_rows: Seq<RowModel>,
}

/// The per-row part of the sidecar that the members of an object stand for.
pub open spec fn sidecar_rows_of_members(ms: Seq<(Seq<char>, ValueModel)>) -> Option<FileRowsModel> {
    match (
        or_default::<StrMap<StrMap<String>>>(ms, "keyed_cell_formulas"@, Seq::empty()),
        or_default::<StrMap<StrMap<ColumnStyle>>>(ms, "keyed_cell_styles"@, Seq::empty()),
        or_default::<StrMap<Row>>(ms, "keyed_comment_rows"@, Seq::empty()),
        or_default::<Vec<StrMap<String>>>(ms, "cell_formulas"@, Seq::empty()),
        or_default::<Vec<StrMap<ColumnStyle>>>(ms, "cell_styles"@, Seq::empty()),
        or_default::<Vec<Row>>(ms, "comment_rows"@, Seq::empty()),
    ) {
        (
            Some(keyed_cell_formulas),
            Some(keyed_cell_styles),
            Some(keyed_comment_rows),
            Some(cell_formulas),
            Some(cell_styles),
            Some(comment_rows),
        ) => Some(
            FileRowsModel {
                keyed_cell_formulas,
                keyed_cell_styles,
                keyed_comment_rows,
                cell_formulas,
                cell_styles,
                comment_rows,
            },
        ),
        _ => None,
    }
}

fn empty_list<T: Model>() -> (r: Vec<T>)
    ensures
        r.model() == Seq::<T::M>::empty(),
{
    let r: Vec<T> = Vec::new();
    assert(r.model() =~= Seq::<T::M>::empty());
    r
}

impl Json for JSheetFile {
    open spec fn json_of(m: FileModel) -> ValueModel {
        ValueModel::Object(sidecar_members(m))
    }

    open spec fn of_json(v: ValueModel) -> Option<FileModel> {
        match v {
            ValueModel::Object(members) => sidecar_of_members(members),
            _ => None,
        }
    }

    fn to_json(&self) -> (r: Value) {
        let ghost parts = sidecar_parts(self.model());
        let mut members: Vec<(String, Value)> = Vec::new();
        assert(members_model(members@) =~= joined(parts, 0));
        let order_len = self.column_order.len();
        let kf = self.keyed_cell_formulas.len();
        let ks = self.keyed_cell_styles.len();
        let kc = self.keyed_comment_rows.len();
        let vl = self.validation.len();
        push_when(&mut members, true, "columns", self.columns.to_json());
        assert(members_model(members@) == joined(parts, 1));
        push_when(&mut members, order_len > 0, "column_order", self.column_order.to_json());
        assert(members_model(members@) == joined(parts, 2));
        push_maybe::<String>(&mut members, "row_key", &self.row_key);
        assert(members_model(members@) == joined(parts, 3));
        push_when(&mut members, true, "comment_columns", self.comment_columns.to_json());
        assert(members_model(members@) == joined(parts, 4));
        push_when(&mut members, true, "summaries", self.summaries.to_json());
        assert(members_model(members@) == joined(parts, 5));
        push_when(&mut members, kf > 0, "keyed_cell_formulas", self.keyed_cell_formulas.to_json());
        assert(members_model(members@) == joined(parts, 6));
        push_when(&mut members, ks > 0, "keyed_cell_styles", self.keyed_cell_styles.to_json());
        assert(members_model(members@) == joined(parts, 7));
        push_when(&mut members, kc > 0, "keyed_comment_rows", self.keyed_comment_rows.to_json());
        assert(members_model(members@) == joined(parts, 8));
        push_when(
            &mut members,
            self.cell_formulas.len() > 0,
            "cell_formulas",
            self.cell_formulas.to_json(),
        );
        assert(members_model(members@) == joined(parts, 9));
        push_when(
            &mut members,
            self.cell_styles.len() > 0,
            "cell_styles",
            self.cell_styles.to_json(),
        );
        assert(members_model(members@) == joined(parts, 10));
        push_when(
            &mut members,
            self.comment_rows.len() > 0,
            "comment_rows",
            self.comment_rows.to_json(),
        );
        assert(members_model(members@) == joined(parts, 11));
        push_when(
            &mut members,
            self.conditional_formats.len() > 0,
            "conditional_formats",
            self.conditional_formats.to_json(),
        );
        assert(members_model(members@) == joined(parts, 12));
        push_when(&mut members, vl > 0, "validation", self.validation.to_json());
        assert(members_model(members@) == joined(parts, 13));
        push_maybe::<usize>(&mut members, "frozen_columns", &self.frozen_columns);
        assert(members_model(members@) == joined(parts, 14));
        let r = Value::Object(members);
        assert(r.model()->Object_0 =~= sidecar_members(self.model()));
        r
    }

    fn from_json(v: &Value) -> (r: Option<Self>) {
        let members = match v {
            Value::Object(members) => {
                assert(v.model()->Object_0 =~= members_model(members@));
                members
            },
            _ => {
                return None;
            },
        };
        let columns = match read_or::<StrMap<ColumnConstraint>>(members, "columns", StrMap::new()) {
            Some(x) => x,
            None => {
                return None;
            },
        };
        let column_order = match read_or::<Vec<String>>(members, "column_order", empty_list()) {
            Some(x) => x,
            None => {
                return None;
            },
        };
        let row_key = match read_optional::<String>(members, "row_key") {
            Some(x) => x,
            None => {
                return None;
            },
        };
        let comment_columns = match read_or::<StrSet>(members, "comment_columns", StrSet::new()) {
            Some(x) => x,
            None => {
                return None;
            },
        };
        let summaries = match read_or::<StrMap<SummaryKind>>(members, "summaries", StrMap::new()) {
            Some(x) => x,
            None => {
                return None;
            },
        };
        let keyed_cell_formulas = match read_or::<StrMap<StrMap<String>>>(
            members,
            "keyed_cell_formulas",
            StrMap::new(),
        ) {
            Some(x) => x,
            None => {
                return None;
            },
        };
        let keyed_cell_styles = match read_or::<StrMap<StrMap<ColumnStyle>>>(
            members,
            "keyed_cell_styles",
            StrMap::new(),
        ) {
            Some(x) => x,
            None => {
                return None;
            },
        };
        let keyed_comment_rows = match read_or::<StrMap<Row>>(
            members,
            "keyed_comment_rows",
            StrMap::new(),
        ) {
            Some(x) => x,
            None => {
                return None;
            },
        };
        let cell_formulas = match read_or::<Vec<StrMap<String>>>(
            members,
            "cell_formulas",
            empty_list(),
        ) {
            Some(x) => x,
            None => {
                return None;
            },
        };
        let cell_styles = match read_or::<Vec<StrMap<ColumnStyle>>>(
            members,
            "cell_styles",
            empty_list(),
        ) {
            Some(x) => x,
            None => {
                return None;
            },
        };
        let comment_rows = match read_or::<Vec<Row>>(members, "comment_rows", empty_list()) {
            Some(x) => x,
            None => {
                return None;
            },
        };
        let conditional_formats = match read_or::<Vec<ConditionalFormat>>(
            members,
            "conditional_formats",
            empty_list(),
        ) {
            Some(x) => x,
            None => {
                return None;
            },
        };
        let validation = match read_or::<StrMap<ValidationRule>>(
            members,
            "validation",
            StrMap::new(),
        ) {
            Some(x) => x,
            None => {
                return None;
            },
        };
        let frozen_columns = match read_optional::<usize>(members, "frozen_columns") {
            Some(x) => x,
            None => {
                return None;
            },
        };
        Some(
            JSheetFile {
                columns,
                column_order,
                row_key,
                comment_columns,
                summaries,
                keyed_cell_formulas,
                keyed_cell_styles,
                keyed_comment_rows,
                cell_formulas,
                cell_styles,
                comment_rows,
                conditional_formats,
                validation,
                frozen_columns,
            },
        )
    }

    open spec fn well_formed(m: FileModel) -> bool {
        &&& StrMap::<ColumnConstraint>::well_formed(m.columns)
        &&& StrSet::well_formed(m.comment_columns)
        &&& StrMap::<SummaryKind>::well_formed(m.summaries)
        &&& StrMap::<StrMap<String>>::well_formed(m.keyed_cell_formulas)
        &&& StrMap::<StrMap<ColumnStyle>>::well_formed(m.keyed_cell_styles)
        &&& StrMap::<Row>::well_formed(m.keyed_comment_rows)
        &&& Vec::<StrMap<String>>::well_formed(m.cell_formulas)
        &&& Vec::<StrMap<ColumnStyle>>::well_formed(m.cell_styles)
        &&& Vec::<Row>::well_formed(m.comment_rows)
        &&& StrMap::<ValidationRule>::well_formed(m.validation)
    }

    proof fn lemma_round_trip(m: FileModel) {
        let parts = sidecar_parts(m);
        let names = sidecar_names();
        lemma_sidecar_names_differ();
        lemma_field_of_joined(parts, names, 14, 0);
        lemma_field_of_joined(parts, names, 14, 1);
        lemma_field_of_joined(parts, names, 14, 2);
        lemma_field_of_joined(parts, names, 14, 3);
        lemma_field_of_joined(parts, names, 14, 4);
        lemma_field_of_joined(parts, names, 14, 5);
        lemma_field_of_joined(parts, names, 14, 6);
        lemma_field_of_joined(parts, names, 14, 7);
        lemma_field_of_joined(parts, names, 14, 8);
        lemma_field_of_joined(parts, names, 14, 9);
        lemma_field_of_joined(parts, names, 14, 10);
        lemma_field_of_joined(parts, names, 14, 11);
        lemma_field_of_joined(parts, names, 14, 12);
        lemma_field_of_joined(parts, names, 14, 13);
        let ms = sidecar_members(m);
        StrMap::<ColumnConstraint>::lemma_round_trip(m.columns);
        assert(or_default::<StrMap<ColumnConstraint>>(ms, "columns"@, Seq::empty()) == Some(
            m.columns,
        ));
        Vec::<String>::lemma_round_trip(m.column_order);
        assert(or_default::<Vec<String>>(ms, "column_order"@, Seq::empty()) == Some(
            m.column_order,
        )) by {
            if m.column_order.len() == 0 {
                assert(m.column_order =~= Seq::<Seq<char>>::empty());
            }
        }
        assert(optional::<String>(ms, "row_key"@) == Some(m.row_key));
        StrSet::lemma_round_trip(m.comment_columns);
        assert(or_default::<StrSet>(ms, "comment_columns"@, Seq::empty()) == Some(
            m.comment_columns,
        ));
        StrMap::<SummaryKind>::lemma_round_trip(m.summaries);
        assert(or_default::<StrMap<SummaryKind>>(ms, "summaries"@, Seq::empty()) == Some(
            m.summaries,
        ));
        StrMap::<StrMap<String>>::lemma_round_trip(m.keyed_cell_formulas);
        assert(or_default::<StrMap<StrMap<String>>>(ms, "keyed_cell_formulas"@, Seq::empty())
            == Some(m.keyed_cell_formulas)) by {
            if m.keyed_cell_formulas.len() == 0 {
                assert(m.keyed_cell_formulas =~= Seq::empty());
            }
        }
        StrMap::<StrMap<ColumnStyle>>::lemma_round_trip(m.keyed_cell_styles);
        assert(or_default::<StrMap<StrMap<ColumnStyle>>>(ms, "keyed_cell_styles"@, Seq::empty())
            == Some(m.keyed_cell_styles)) by {
            if m.keyed_cell_styles.len() == 0 {
                assert(m.keyed_cell_styles =~= Seq::empty());
            }
        }
        StrMap::<Row>::lemma_round_trip(m.keyed_comment_rows);
        assert(or_default::<StrMap<Row>>(ms, "keyed_comment_rows"@, Seq::empty()) == Some(
            m.keyed_comment_rows,
        )) by {
            if m.keyed_comment_rows.len() == 0 {
                assert(m.keyed_comment_rows =~= Seq::empty());
            }
        }
        Vec::<StrMap<String>>::lemma_round_trip(m.cell_formulas);
        assert(or_default::<Vec<StrMap<String>>>(ms, "cell_formulas"@, Seq::empty()) == Some(
            m.cell_formulas,
        )) by {
            if m.cell_formulas.len() == 0 {
                assert(m.cell_formulas =~= Seq::empty());
            }
        }
        Vec::<StrMap<ColumnStyle>>::lemma_round_trip(m.cell_styles);
        assert(or_default::<Vec<StrMap<ColumnStyle>>>(ms, "cell_styles"@, Seq::empty()) == Some(
            m.cell_styles,
        )) by {
            if m.cell_styles.len() == 0 {
                assert(m.cell_styles =~= Seq::empty());
            }
        }
        Vec::<Row>::lemma_round_trip(m.comment_rows);
        assert(or_default::<Vec<Row>>(ms, "comment_rows"@, Seq::empty()) == Some(
            m.comment_rows,
        )) by {
            if m.comment_rows.len() == 0 {
                assert(m.comment_rows =~= Seq::empty());
            }
        }
        Vec::<ConditionalFormat>::lemma_round_trip(m.conditional_formats);
        assert(or_default::<Vec<ConditionalFormat>>(ms, "conditional_formats"@, Seq::empty())
            == Some(m.conditional_formats)) by {
            if m.conditional_formats.len() == 0 {
                assert(m.conditional_formats =~= Seq::empty());
            }
        }
        StrMap::<ValidationRule>::lemma_round_trip(m.validation);
        assert(or_default::<StrMap<ValidationRule>>(ms, "validation"@, Seq::empty()) == Some(
            m.validation,
        )) by {
            if m.validation.len() == 0 {
                assert(m.validation =~= Seq::empty());
            }
        }
        match m.frozen_columns {
            Some(n) => {
                usize::lemma_round_trip(n);
            },
            None => {},
        }
        assert(optional::<usize>(ms, "frozen_columns"@) == Some(m.frozen_columns));
    }
}

/// The members of a sidecar have names of their own.
proof fn lemma_sidecar_names_differ()
    ensures
        sidecar_names().len() == 14,
        forall|j: int, k: int|
            0 <= j < 14 && 0 <= k < 14 && j != k ==> #[trigger] sidecar_names()[j]
                != #[trigger] sidecar_names()[k],
        forall|f: FileModel, j: int|
            0 <= j < 14 ==> is_part(sidecar_names()[j], #[trigger] sidecar_parts(f)[j]),
        forall|f: FileModel| (#[trigger] sidecar_parts(f)).len() == 14,
{
    reveal_strlit("columns");
    reveal_strlit("column_order");
    reveal_strlit("row_key");
    reveal_strlit("comment_columns");
    reveal_strlit("summaries");
    reveal_strlit("keyed_cell_formulas");
    reveal_strlit("keyed_cell_styles");
    reveal_strlit("keyed_comment_rows");
    reveal_strlit("cell_formulas");
    reveal_strlit("cell_styles");
    reveal_strlit("comment_rows");
    reveal_strlit("conditional_formats");
    reveal_strlit("validation");
    reveal_strlit("frozen_columns");
    let names = sidecar_names();
    assert("columns"@[0] != "row_key"@[0]);
    assert("column_order"@[2] != "comment_rows"@[2]);
    assert("keyed_cell_formulas"@[0] != "conditional_formats"@[0]);
    assert(names[0].len() == 7 && names[1].len() == 12 && names[2].len() == 7 && names[3].len()
        == 15 && names[4].len() == 9 && names[5].len() == 19 && names[6].len() == 17
        && names[7].len() == 18 && names[8].len() == 13 && names[9].len() == 11
        && names[10].len() == 12 && names[11].len() == 19 && names[12].len() == 10
        && names[13].len() == 14);
}

/// The sidecar that a text stands for; none where the text is no JSON or no
/// sidecar.
pub open spec fn sidecar_of_text(text: Seq<char>) -> Option<FileModel> {
    if json_valid(text) {
        match decoded(text, MAX_DEPTH as nat) {
            Some(v) => JSheetFile::of_json(v),
            None => None,
        }
    } else {
        None
    }
}

/// The metadata that the text of a sidecar stands for beside the rows `data`;
/// without a sidecar, the metadata of a sheet that has none.
pub open spec fn meta_of_sidecar(text: Option<Seq<char>>, data: TableModel) -> Option<MetaModel> {
    match text {
        Some(t) => match sidecar_of_text(t) {
            Some(f) => Some(meta_of_file(f, data)),
            None => None,
        },
        None => Some(crate::jsheet::empty_meta()),
    }
}

/// Reads a sidecar from its text.
pub fn sidecar_from_text(text: &str) -> (r: Result<JSheetFile, JSheetIoError>)
    ensures
        match r {
            Ok(f) => sidecar_of_text(text@) == Some(f.model()),
            Err(e) => sidecar_of_text(text@) is None && e is Parse,
        },
{
    match value_from_text(text) {
        Some(v) => match JSheetFile::from_json(&v) {
            Some(f) => Ok(f),
            None => Err(JSheetIoError::Parse("no sidecar".to_owned())),
        },
        None => Err(JSheetIoError::Parse("no JSON".to_owned())),
    }
}

/// Writes a sidecar as text, laid out over lines.
pub fn sidecar_to_text(file: &JSheetFile) -> (r: String)
    ensures
        r@ == pretty_text(JSheetFile::json_of(file.model()), Seq::<char>::empty()),
{
    let v = file.to_json();
    to_pretty_text(&v)
}

/// The metadata of a sheet, from the text of its sidecar where it has one. A
/// sheet without a sidecar has the metadata of a new sheet.
pub fn load_sidecar(text: Option<&str>, data: &TableData) -> (r: Result<JSheetMeta, JSheetIoError>)
    ensures
        match r {
            Ok(m) => meta_of_sidecar(crate::coercion::input_model(text), data.model()) == Some(
                m.model(),
            ),
            Err(e) => meta_of_sidecar(crate::coercion::input_model(text), data.model()) is None
                && e is Parse,
        },
{
    match text {
        Some(t) => match sidecar_from_text(t) {
            Ok(file) => Ok(file.into_meta(data)),
            Err(e) => Err(e),
        },
        None => Ok(JSheetMeta::new()),
    }
}

/// The text of the sidecar for `meta` beside the rows `data`.
pub fn save_sidecar(meta: &JSheetMeta, data: &TableData) -> (r: String)
    ensures
        exists|f: FileModel|
            file_holds(f, meta.model(), data.model()) && r@ == #[trigger] pretty_text(
                JSheetFile::json_of(f),
                Seq::<char>::empty(),
            ),
{
    let file = JSheetFile::from_meta(meta, data);
    sidecar_to_text(&file)
}

} // verus!
