//! The state of an open sheet: its rows and metadata, the sort, filter and
//! search in force, and the history that undo and redo walk.
//!
//! Every edit of the rows first puts a snapshot of rows, metadata and sort on
//! the undo stack and empties the redo stack. Undo and redo move snapshots
//! between the two stacks and never make new history.

use vstd::prelude::*;
use crate::coercion::{coerced_for_column, inline_style};
use crate::columns::{displays, first_row_key, items_upto, known_column, lemma_items_upto_all, lemma_items_upto_step};
use crate::comments::{comments_of, with_comments};
use crate::data_model::{column_in, Row, RowModel, TableData, TableModel};
use crate::evaluate::cell_value;
use crate::export::{export_outcome, formula_fails, type_fails, ExportError};
use crate::formula::{is_formula, normalize_formula, normalized};
use crate::jsheet::{empty_meta, entry_at, entry_of, gathered, grown, normal_color, resized, row_entries, with_formula, without_formula, ColumnConstraint, ColumnStyle, ColumnType, ConditionalFormat, JSheetMeta, MetaModel, StyleModel, SummaryKind, ValidationRule};
use crate::model::{ref_model, Model};
use crate::sorting::{sort_order, sorts};
use crate::strmap::{has_key, lemma_pairs_map, pairs_map, put, sorted_keys, StrMap};
use crate::summary::summary_text;
use crate::text::{
    chars_of, contains_chars, contains_text, lower_text, lowered, same_text, trim, trimmed,
};
use crate::value::{display_chars, display_text, display_value, parse_cell_input, parsed_input, Value, ValueModel};

verus! {

broadcast use vstd::std_specs::vec::group_vec_axioms;

#[derive(Clone, Copy, Debug, PartialEq, Eq, Structural)]
pub enum SortOrder {
    Asc,
    Desc,
}

#[derive(Debug, PartialEq)]
pub struct SortSpec {
    pub column: String,
    pub order: SortOrder,
}

pub struct SortSpecModel {
    pub column: Seq<char>,
    pub order: SortOrder,
}

/// What one edit of a batch writes into its cell.
#[derive(Debug, PartialEq)]
pub enum CellEditKind {
    Value(Value),
    Formula(String),
}

pub enum EditKindModel {
    Value(ValueModel),
    Formula(Seq<char>),
}

/// One edit of a batch.
#[derive(Debug, PartialEq)]
pub struct CellEdit {
    pub row_index: usize,
    pub column: String,
    pub kind: CellEditKind,
}

pub struct EditModel {
    pub row_index: usize,
    pub column: Seq<char>,
    pub kind: EditKindModel,
}

#[derive(Debug, PartialEq)]
struct HistoryEntry {
    data: TableData,
    jsheet_meta: JSheetMeta,
    sort_spec: Option<SortSpec>,
}

/// A snapshot of what undo and redo restore.
pub struct HistoryModel {
    pub data: TableModel,
    pub meta: MetaModel,
    pub sort_spec: Option<SortSpecModel>,
}

#[derive(Debug, PartialEq)]
pub struct TableState {
    data: TableData,
    jsheet_meta: JSheetMeta,
    undo_stack: Vec<HistoryEntry>,
    redo_stack: Vec<HistoryEntry>,
    sort_spec: Option<SortSpec>,
    filter_column: Option<String>,
    filter_query: String,
    search_query: String,
}

pub struct StateModel {
    pub data: TableModel,
    pub meta: MetaModel,
    pub undo: Seq<HistoryModel>,
    pub redo: Seq<HistoryModel>,
    pub sort_spec: Option<SortSpecModel>,
    pub filter_column: Option<Seq<char>>,
    pub filter_query: Seq<char>,
    pub search_query: Seq<char>,
}

impl Model for SortOrder {
    type M = SortOrder;

    open spec fn model(&self) -> SortOrder {
        *self
    }

    fn copy_of(&self) -> (r: Self) {
        *self
    }

    fn same_as(&self, other: &Self) -> (b: bool) {
        *self == *other
    }
}

impl Model for SortSpec {
    type M = SortSpecModel;

    open spec fn model(&self) -> SortSpecModel {
        SortSpecModel { column: self.column@, order: self.order }
    }

    fn copy_of(&self) -> (r: Self) {
        SortSpec { column: self.column.clone(), order: self.order }
    }

    fn same_as(&self, other: &Self) -> (b: bool) {
        self.column == other.column && self.order == other.order
    }
}

impl Model for CellEditKind {
    type M = EditKindModel;

    open spec fn model(&self) -> EditKindModel {
        match self {
            CellEditKind::Value(v) => EditKindModel::Value(v.model()),
            CellEditKind::Formula(text) => EditKindModel::Formula(text@),
        }
    }

    fn copy_of(&self) -> (r: Self) {
        match self {
            CellEditKind::Value(v) => CellEditKind::Value(v.copy_of()),
            CellEditKind::Formula(text) => CellEditKind::Formula(text.clone()),
        }
    }

    fn same_as(&self, other: &Self) -> (b: bool) {
        match (self, other) {
            (CellEditKind::Value(a), CellEditKind::Value(b)) => a.same_as(b),
            (CellEditKind::Formula(a), CellEditKind::Formula(b)) => *a == *b,
            _ => false,
        }
    }
}

impl Model for CellEdit {
    type M = EditModel;

    open spec fn model(&self) -> EditModel {
        EditModel { row_index: self.row_index, column: self.column@, kind: self.kind.model() }
    }

    fn copy_of(&self) -> (r: Self) {
        CellEdit {
            row_index: self.row_index,
            column: self.column.clone(),
            kind: self.kind.copy_of(),
        }
    }

    fn same_as(&self, other: &Self) -> (b: bool) {
        self.row_index == other.row_index && self.column == other.column && self.kind.same_as(
            &other.kind,
        )
    }
}

impl Model for HistoryEntry {
    type M = HistoryModel;

    closed spec fn model(&self) -> HistoryModel {
        HistoryModel {
            data: self.data.model(),
            meta: self.jsheet_meta.model(),
            sort_spec: self.sort_spec.model(),
        }
    }

    fn copy_of(&self) -> (r: Self) {
        HistoryEntry {
            data: self.data.copy_of(),
            jsheet_meta: self.jsheet_meta.copy_of(),
            sort_spec: self.sort_spec.copy_of(),
        }
    }

    fn same_as(&self, other: &Self) -> (b: bool) {
        self.data.same_as(&other.data) && self.jsheet_meta.same_as(&other.jsheet_meta)
            && self.sort_spec.same_as(&other.sort_spec)
    }
}

impl Model for TableState {
    type M = StateModel;

    closed spec fn model(&self) -> StateModel {
        StateModel {
            data: self.data.model(),
            meta: self.jsheet_meta.model(),
            undo: self.undo_stack.model(),
            redo: self.redo_stack.model(),
            sort_spec: self.sort_spec.model(),
            filter_column: self.filter_column.model(),
            filter_query: self.filter_query@,
            search_query: self.search_query@,
        }
    }

    fn copy_of(&self) -> (r: Self) {
        TableState {
            data: self.data.copy_of(),
            jsheet_meta: self.jsheet_meta.copy_of(),
            undo_stack: self.undo_stack.copy_of(),
            redo_stack: self.redo_stack.copy_of(),
            sort_spec: self.sort_spec.copy_of(),
            filter_column: self.filter_column.copy_of(),
            filter_query: self.filter_query.clone(),
            search_query: self.search_query.clone(),
        }
    }

    fn same_as(&self, other: &Self) -> (b: bool) {
        self.data.same_as(&other.data) && self.jsheet_meta.same_as(&other.jsheet_meta)
            && self.undo_stack.same_as(&other.undo_stack) && self.redo_stack.same_as(
            &other.redo_stack,
        ) && self.sort_spec.same_as(&other.sort_spec) && self.filter_column.same_as(
            &other.filter_column,
        ) && self.filter_query == other.filter_query && self.search_query == other.search_query
    }
}

/// The state of a sheet without rows, metadata or history.
pub open spec fn empty_state() -> StateModel {
    StateModel {
        data: Seq::empty(),
        meta: empty_meta(),
        undo: Seq::empty(),
        redo: Seq::empty(),
        sort_spec: None,
        filter_column: None,
        filter_query: Seq::empty(),
        search_query: Seq::empty(),
    }
}

/// What a snapshot of the state holds.
pub open spec fn snapshot_of(s: StateModel) -> HistoryModel {
    HistoryModel { data: s.data, meta: s.meta, sort_spec: s.sort_spec }
}

/// The state after an edit of the rows: the state before it is on the undo
/// stack, the redo stack is empty, and rows, metadata and sort are new.
pub open spec fn mutated(
    s: StateModel,
    data: TableModel,
    meta: MetaModel,
    sort_spec: Option<SortSpecModel>,
) -> StateModel {
    StateModel {
        data,
        meta,
        sort_spec,
        undo: s.undo.push(snapshot_of(s)),
        redo: Seq::empty(),
        ..s
    }
}

/// The state after undo, for a state with something to undo.
pub open spec fn undone(s: StateModel) -> StateModel {
    StateModel {
        data: s.undo.last().data,
        meta: s.undo.last().meta,
        sort_spec: s.undo.last().sort_spec,
        undo: s.undo.drop_last(),
        redo: s.redo.push(snapshot_of(s)),
        ..s
    }
}

/// The state after redo, for a state with something to redo.
pub open spec fn redone(s: StateModel) -> StateModel {
    StateModel {
        data: s.redo.last().data,
        meta: s.redo.last().meta,
        sort_spec: s.redo.last().sort_spec,
        redo: s.redo.drop_last(),
        undo: s.undo.push(snapshot_of(s)),
        ..s
    }
}

/// Undo after an edit gives back the rows, the metadata, the sort and the
/// undo stack of before the edit; the edit's result is what redo will restore.
pub proof fn lemma_undo_reverts_edit(
    s: StateModel,
    data: TableModel,
    meta: MetaModel,
    sort_spec: Option<SortSpecModel>,
)
    ensures
        undone(mutated(s, data, meta, sort_spec)) == (StateModel {
            redo: seq![snapshot_of(mutated(s, data, meta, sort_spec))],
            ..s
        }),
{
    let m = mutated(s, data, meta, sort_spec);
    assert(m.undo.drop_last() =~= s.undo);
    assert(m.redo.push(snapshot_of(m)) =~= seq![snapshot_of(m)]);
}

/// The state after a run of edits, each given by the rows, metadata and sort
/// that it leaves.
pub open spec fn after_edits(
    s: StateModel,
    edits: Seq<(TableModel, MetaModel, Option<SortSpecModel>)>,
) -> StateModel
    decreases edits.len(),
{
    if edits.len() == 0 {
        s
    } else {
        let before = after_edits(s, edits.drop_last());
        mutated(before, edits.last().0, edits.last().1, edits.last().2)
    }
}

/// The state after `n` undos.
pub open spec fn after_undos(s: StateModel, n: nat) -> StateModel
    decreases n,
{
    if n == 0 {
        s
    } else {
        after_undos(undone(s), (n - 1) as nat)
    }
}

/// After any run of edits, as many undos bring back the rows, the metadata,
/// the sort and the undo stack of before the run.
pub proof fn lemma_undo_reverts_all(
    s: StateModel,
    edits: Seq<(TableModel, MetaModel, Option<SortSpecModel>)>,
)
    ensures
        after_undos(after_edits(s, edits), edits.len()).data == s.data,
        after_undos(after_edits(s, edits), edits.len()).meta == s.meta,
        after_undos(after_edits(s, edits), edits.len()).sort_spec == s.sort_spec,
        after_undos(after_edits(s, edits), edits.len()).undo == s.undo,
    decreases edits.len(),
{
    if edits.len() > 0 {
        let before = after_edits(s, edits.drop_last());
        let last = edits.last();
        lemma_undo_reverts_edit(before, last.0, last.1, last.2);
        let stepped = undone(after_edits(s, edits));
        lemma_undos_ignore_redo(before, stepped, (edits.len() - 1) as nat);
        lemma_undo_reverts_all(s, edits.drop_last());
    }
}

/// What undos restore does not depend on the redo stack they start from.
proof fn lemma_undos_ignore_redo(a: StateModel, b: StateModel, n: nat)
    requires
        b == (StateModel { redo: b.redo, ..a }),
    ensures
        after_undos(b, n) == (StateModel { redo: after_undos(b, n).redo, ..after_undos(a, n) }),
    decreases n,
{
    if n > 0 {
        lemma_undos_ignore_redo(undone(a), undone(b), (n - 1) as nat);
    }
}

/// Redo after undo gives back exactly the state that was undone.
pub proof fn lemma_redo_restores_undone(s: StateModel)
    requires
        s.undo.len() > 0,
    ensures
        redone(undone(s)) == s,
{
    let u = undone(s);
    assert(u.redo.drop_last() =~= s.redo);
    assert(u.undo.push(snapshot_of(u)) =~= s.undo);
}

/// An edit after undo leaves nothing to redo.
pub proof fn lemma_edit_clears_redo(
    s: StateModel,
    data: TableModel,
    meta: MetaModel,
    sort_spec: Option<SortSpecModel>,
)
    ensures
        mutated(undone(s), data, meta, sort_spec).redo.len() == 0,
{
}

/// The per-row formulas and styles have a row for each row of the table, now
/// and in every snapshot.
pub open spec fn aligned(s: StateModel) -> bool {
    &&& rows_aligned(s.data, s.meta)
    &&& forall|i: int| 0 <= i < s.undo.len() ==> rows_aligned((#[trigger] s.undo[i]).data, s.undo[i].meta)
    &&& forall|i: int| 0 <= i < s.redo.len() ==> rows_aligned((#[trigger] s.redo[i]).data, s.redo[i].meta)
}

pub open spec fn rows_aligned(data: TableModel, meta: MetaModel) -> bool {
    meta.cell_formulas.len() == data.len() && meta.cell_styles.len() == data.len()
}

/// The opposite direction of a sort.
pub open spec fn flipped(order: SortOrder) -> SortOrder {
    match order {
        SortOrder::Asc => SortOrder::Desc,
        SortOrder::Desc => SortOrder::Asc,
    }
}

/// The direction that a toggle on `column` gives: the opposite of the sort in
/// force where that is by the same column, else ascending.
pub open spec fn toggled(current: Option<SortSpecModel>, column: Seq<char>) -> SortOrder {
    match current {
        Some(spec) => if spec.column == column {
            flipped(spec.order)
        } else {
            SortOrder::Asc
        },
        None => SortOrder::Asc,
    }
}

/// Toggling one column again and again goes ascending, descending,
/// ascending, whatever sort was in force to begin with on another column.
pub proof fn lemma_toggle_alternates(current: Option<SortSpecModel>, column: Seq<char>)
    requires
        current is None || current->0.column != column,
    ensures
        toggled(current, column) == SortOrder::Asc,
        toggled(Some(SortSpecModel { column, order: SortOrder::Asc }), column) == SortOrder::Desc,
        toggled(Some(SortSpecModel { column, order: SortOrder::Desc }), column) == SortOrder::Asc,
{
}

pub fn toggle_sort_order(order: &SortOrder) -> (r: SortOrder)
    ensures
        r == flipped(*order),
{
    match order {
        SortOrder::Asc => SortOrder::Desc,
        SortOrder::Desc => SortOrder::Asc,
    }
}

/// Whether a cell's value shows `query`: its display text holds the query,
/// ASCII case aside.
pub open spec fn shows(value: Option<ValueModel>, query: Seq<char>) -> bool {
    match value {
        Some(v) => contains_text(lower_text(display_text(v)), lower_text(query)),
        None => false,
    }
}

/// What the cell at row `i` under `column` is worth.
pub open spec fn state_cell(s: StateModel, i: int, column: Seq<char>) -> Option<ValueModel> {
    if 0 <= i < s.data.len() {
        cell_value(row_entries(s.meta.cell_formulas, i), s.data[i], column)
    } else {
        None
    }
}

/// Whether the filter lets row `i` through. Without a query, or without a
/// column, every row passes.
pub open spec fn row_visible(s: StateModel, i: int) -> bool {
    s.filter_query.len() == 0 || match s.filter_column {
        Some(c) => shows(state_cell(s, i, c), s.filter_query),
        None => true,
    }
}

/// The indices below `n` of the rows that the filter lets through, rising.
pub open spec fn visible_upto(s: StateModel, n: int) -> Seq<usize>
    decreases n,
{
    if n <= 0 {
        Seq::empty()
    } else {
        let head = visible_upto(s, n - 1);
        if row_visible(s, n - 1) {
            head.push((n - 1) as usize)
        } else {
            head
        }
    }
}

/// The indices of the rows in view.
pub open spec fn visible_rows(s: StateModel) -> Seq<usize> {
    visible_upto(s, s.data.len() as int)
}

/// Without a filter query every row is in view.
pub proof fn lemma_no_query_shows_all(s: StateModel, n: int)
    requires
        s.filter_query.len() == 0,
        0 <= n <= usize::MAX,
    ensures
        visible_upto(s, n).len() == n,
        forall|i: int| 0 <= i < n ==> #[trigger] visible_upto(s, n)[i] == i,
    decreases n,
{
    if n > 0 {
        lemma_no_query_shows_all(s, n - 1);
    }
}

/// Whether the search marks the cell at row `i` under `column`.
pub open spec fn search_hit(s: StateModel, i: int, column: Seq<char>) -> bool {
    s.search_query.len() > 0 && shows(state_cell(s, i, column), s.search_query)
}

fn value_shows(value: &Option<Value>, query: &str) -> (r: bool)
    ensures
        r == shows(value.model(), query@),
{
    match value {
        Some(v) => {
            let hay = lowered(&display_chars(v));
            let needle = lowered(&chars_of(query));
            contains_chars(&hay, &needle)
        },
        None => false,
    }
}

impl TableState {
    pub fn new() -> (r: Self)
        ensures
            r.model() == empty_state(),
            aligned(r.model()),
    {
        let r = TableState {
            data: Vec::new(),
            jsheet_meta: JSheetMeta::new(),
            undo_stack: Vec::new(),
            redo_stack: Vec::new(),
            sort_spec: None,
            filter_column: None,
            filter_query: String::new(),
            search_query: String::new(),
        };
        proof {
            assert(r.model().data =~= Seq::<RowModel>::empty());
            assert(r.model().undo =~= Seq::<HistoryModel>::empty());
            assert(r.model().redo =~= Seq::<HistoryModel>::empty());
        }
        r
    }

    /// A state over `data`, without metadata beyond an empty row of formulas
    /// and styles for each row.
    pub fn from_data(data: TableData) -> (r: Self)
        ensures
            r.model() == (StateModel {
                data: data.model(),
                meta: MetaModel {
                    cell_formulas: resized(empty_meta().cell_formulas, data@.len() as int),
                    cell_styles: resized(empty_meta().cell_styles, data@.len() as int),
                    ..empty_meta()
                },
                ..empty_state()
            }),
            aligned(r.model()),
    {
        let mut r = TableState::new();
        r.jsheet_meta.resize_row_metadata(data.len());
        r.data = data;
        r
    }

    /// A state over `data` with the metadata `jsheet_meta`.
    pub fn from_data_and_jsheet(data: TableData, jsheet_meta: JSheetMeta) -> (r: Self)
        ensures
            loaded(r.model(), empty_state(), data.model(), jsheet_meta.model()),
            aligned(r.model()),
    {
        let mut state = TableState::new();
        state.replace_data_and_jsheet(data, jsheet_meta);
        state
    }

    /// Replaces rows and metadata by `data` alone.
    pub fn replace_data(&mut self, data: TableData)
        ensures
            loaded(final(self).model(), old(self).model(), data.model(), empty_meta()),
            aligned(final(self).model()),
    {
        self.replace_data_and_jsheet(data, JSheetMeta::new());
    }

    /// Replaces rows and metadata. A row key is picked where none is set, the
    /// comment values are laid over the rows, the per-row metadata is brought
    /// to the number of rows; history, sort, filter and search are cleared.
    pub fn replace_data_and_jsheet(&mut self, data: TableData, jsheet_meta: JSheetMeta)
        ensures
            loaded(final(self).model(), old(self).model(), data.model(), jsheet_meta.model()),
            aligned(final(self).model()),
    {
        let mut data = data;
        let mut jsheet_meta = jsheet_meta;
        let ghost d0 = data.model();
        let ghost m0 = jsheet_meta.model();
        jsheet_meta.auto_detect_row_key(&data);
        jsheet_meta.apply_comment_rows(&mut data);
        jsheet_meta.resize_row_metadata(data.len());
        self.data = data;
        self.jsheet_meta = jsheet_meta;
        self.undo_stack = Vec::new();
        self.redo_stack = Vec::new();
        self.sort_spec = None;
        self.filter_column = None;
        self.filter_query = String::new();
        self.search_query = String::new();
        proof {
            assert(self.model().undo =~= Seq::<HistoryModel>::empty());
            assert(self.model().redo =~= Seq::<HistoryModel>::empty());
        }
    }

    pub fn data(&self) -> (r: &TableData)
        ensures
            r.model() == self.model().data,
    {
        &self.data
    }

    pub fn jsheet_meta(&self) -> (r: &JSheetMeta)
        ensures
            r.model() == self.model().meta,
    {
        &self.jsheet_meta
    }

    /// The metadata as it is saved: with the comment values of the rows.
    pub fn jsheet_meta_for_save(&self) -> (r: JSheetMeta)
        ensures
            r.model() == (MetaModel { comment_rows: r.model().comment_rows, ..self.model().meta }),
            self.model().meta.comment_columns.len() == 0 ==> r.model().comment_rows.len() == 0,
            self.model().meta.comment_columns.len() > 0 ==> r.model().comment_rows.len()
                == self.model().data.len() && forall|i: int|
                0 <= i < self.model().data.len() ==> pairs_map(#[trigger] r.model().comment_rows[i])
                    == comments_of(self.model().data[i], self.model().meta.comment_columns),
    {
        let mut meta = self.jsheet_meta.copy_of();
        meta.capture_comment_rows(&self.data);
        meta
    }

    pub fn can_undo(&self) -> (r: bool)
        ensures
            r == (self.model().undo.len() > 0),
    {
        self.undo_stack.len() > 0
    }

    pub fn can_redo(&self) -> (r: bool)
        ensures
            r == (self.model().redo.len() > 0),
    {
        self.redo_stack.len() > 0
    }

    pub fn sort_spec(&self) -> (r: Option<&SortSpec>)
        ensures
            ref_model(r) == self.model().sort_spec,
    {
        self.sort_spec.as_ref()
    }

    pub fn filter_column(&self) -> (r: Option<&String>)
        ensures
            ref_model(r) == self.model().filter_column,
    {
        self.filter_column.as_ref()
    }

    pub fn filter_query(&self) -> (r: &String)
        ensures
            r@ == self.model().filter_query,
    {
        &self.filter_query
    }

    pub fn search_query(&self) -> (r: &String)
        ensures
            r@ == self.model().search_query,
    {
        &self.search_query
    }

    /// The columns to show, in display order.
    pub fn display_columns(&self) -> (r: Vec<String>)
        ensures
            displays(r.model(), self.model().meta, self.model().data),
    {
        self.jsheet_meta.display_columns(&self.data)
    }

    pub fn set_column_order(&mut self, order: Vec<String>)
        ensures
            final(self).model() == (StateModel {
                meta: MetaModel { column_order: order.model(), ..old(self).model().meta },
                ..old(self).model()
            }),
    {
        self.jsheet_meta.set_column_order(order);
    }

    pub fn conditional_formats(&self) -> (r: &Vec<ConditionalFormat>)
        ensures
            r.model() == self.model().meta.conditional_formats,
    {
        self.jsheet_meta.conditional_formats()
    }

    pub fn add_conditional_format(&mut self, format: ConditionalFormat)
        ensures
            final(self).model() == (StateModel {
                meta: MetaModel {
                    conditional_formats: old(self).model().meta.conditional_formats.push(
                        format.model(),
                    ),
                    ..old(self).model().meta
                },
                ..old(self).model()
            }),
    {
        self.jsheet_meta.add_conditional_format(format);
    }

    pub fn remove_conditional_format(&mut self, index: usize) -> (r: bool)
        ensures
            r == (index < old(self).model().meta.conditional_formats.len()),
            r ==> final(self).model() == (StateModel {
                meta: MetaModel {
                    conditional_formats: old(self).model().meta.conditional_formats.remove(
                        index as int,
                    ),
                    ..old(self).model().meta
                },
                ..old(self).model()
            }),
            !r ==> final(self).model() == old(self).model(),
    {
        self.jsheet_meta.remove_conditional_format(index)
    }

    pub fn validation_rule(&self, column: &str) -> (r: Option<&ValidationRule>)
        ensures
            ref_model(r) == entry_of(self.model().meta.validation, column@),
    {
        self.jsheet_meta.validation_rule(column)
    }

    /// Sets the validation rule of a column. No rule, or a rule with neither
    /// bounds nor admitted texts, withdraws it.
    pub fn set_validation_rule(&mut self, column: &str, rule: Option<ValidationRule>)
        ensures
            final(self).model() == (StateModel {
                meta: MetaModel {
                    validation: final(self).model().meta.validation,
                    ..old(self).model().meta
                },
                ..old(self).model()
            }),
            sorted_keys(final(self).model().meta.validation),
            pairs_map(final(self).model().meta.validation) == match rule.model() {
                Some(m) => if m.min is None && m.max is None && m.enum_values is None {
                    pairs_map(old(self).model().meta.validation).remove(column@)
                } else {
                    pairs_map(old(self).model().meta.validation).insert(column@, m)
                },
                None => pairs_map(old(self).model().meta.validation).remove(column@),
            },
    {
        self.jsheet_meta.set_validation_rule(column, rule);
    }

    pub fn frozen_columns(&self) -> (r: usize)
        ensures
            r == match self.model().meta.frozen_columns {
                Some(n) => n,
                None => 0,
            },
    {
        self.jsheet_meta.frozen_columns()
    }

    pub fn set_frozen_columns(&mut self, count: Option<usize>)
        ensures
            final(self).model() == (StateModel {
                meta: MetaModel { frozen_columns: count, ..old(self).model().meta },
                ..old(self).model()
            }),
    {
        self.jsheet_meta.set_frozen_columns(count);
    }

    pub fn column_type(&self, column: &str) -> (r: Option<ColumnType>)
        ensures
            r == match entry_of(self.model().meta.columns, column@) {
                Some(c) => Some(c.value_type),
                None => None,
            },
    {
        self.jsheet_meta.column_type(column)
    }

    /// Declares the type of a column, or withdraws the declaration.
    pub fn set_column_type(&mut self, column: &str, column_type: Option<ColumnType>)
        ensures
            final(self).model() == (StateModel {
                meta: MetaModel {
                    columns: final(self).model().meta.columns,
                    ..old(self).model().meta
                },
                ..old(self).model()
            }),
            sorted_keys(final(self).model().meta.columns),
            pairs_map(final(self).model().meta.columns) == match column_type {
                Some(t) => pairs_map(old(self).model().meta.columns).insert(
                    column@,
                    ColumnConstraint { value_type: t },
                ),
                None => pairs_map(old(self).model().meta.columns).remove(column@),
            },
    {
        self.jsheet_meta.set_column_type(column, column_type);
    }

    /// The formula attached to a cell.
    pub fn cell_formula(&self, row_index: usize, column: &str) -> (r: Option<String>)
        ensures
            r.model() == entry_at(self.model().meta.cell_formulas, row_index as int, column@),
    {
        match self.jsheet_meta.formula_for_cell(row_index, column) {
            Some(text) => Some(text.clone()),
            None => None,
        }
    }

    /// Attaches a formula to a cell of the table. Refused, with nothing
    /// changed, where the text normalizes to nothing or to the formula the
    /// cell has, where there is no such row, where the trimmed column name is
    /// empty, or where the normalized text is no formula.
    pub fn set_cell_formula(&mut self, row_index: usize, column: &str, formula: String) -> (r: bool)
        ensures
            r == formula_settable(old(self).model(), row_index, column@, formula@),
            !r ==> final(self).model() == old(self).model(),
            r ==> final(self).model() == (StateModel {
                meta: with_formula(
                    old(self).model().meta,
                    row_index as int,
                    trim(column@),
                    normalized(normalized(formula@)->0)->0,
                ),
                ..old(self).model()
            }),
            aligned(old(self).model()) ==> aligned(final(self).model()),
    {
        let body = match normalize_formula(formula.as_str()) {
            Some(body) => body,
            None => {
                return false;
            },
        };
        match self.jsheet_meta.formula_for_cell(row_index, column) {
            Some(current) => {
                if same_text(current.as_str(), body.as_str()) {
                    return false;
                }
            },
            None => {},
        }
        if row_index >= self.data.len() {
            return false;
        }
        let r = self.jsheet_meta.set_formula_for_cell(row_index, column, body);
        r
    }

    /// Detaches the formula of a cell, if it has one.
    pub fn remove_cell_formula(&mut self, row_index: usize, column: &str)
        ensures
            final(self).model() == (StateModel {
                meta: without_formula(old(self).model().meta, row_index as int, column@),
                ..old(self).model()
            }),
            aligned(old(self).model()) ==> aligned(final(self).model()),
    {
        self.jsheet_meta.remove_formula_for_cell(row_index, column);
    }

    pub fn is_comment_column(&self, column: &str) -> (r: bool)
        ensures
            r == self.model().meta.comment_columns.contains(column@),
    {
        self.jsheet_meta.is_comment_column(column)
    }

    pub fn summary_kind(&self, column: &str) -> (r: Option<SummaryKind>)
        ensures
            r == entry_of(self.model().meta.summaries, column@),
    {
        self.jsheet_meta.summary_kind(column)
    }

    /// Declares the summary of a column, or withdraws it.
    pub fn set_summary_kind(&mut self, column: &str, summary_kind: Option<SummaryKind>)
        ensures
            final(self).model() == (StateModel {
                meta: MetaModel {
                    summaries: final(self).model().meta.summaries,
                    ..old(self).model().meta
                },
                ..old(self).model()
            }),
            sorted_keys(final(self).model().meta.summaries),
            pairs_map(final(self).model().meta.summaries) == match summary_kind {
                Some(kind) => pairs_map(old(self).model().meta.summaries).insert(column@, kind),
                None => pairs_map(old(self).model().meta.summaries).remove(column@),
            },
    {
        self.jsheet_meta.set_summary_kind(column, summary_kind);
    }

    /// The style set on a cell itself.
    pub fn cell_style(&self, row_index: usize, column: &str) -> (r: Option<ColumnStyle>)
        ensures
            r.model() == entry_at(self.model().meta.cell_styles, row_index as int, column@),
    {
        match self.jsheet_meta.cell_style(row_index, column) {
            Some(style) => Some(style.copy_of()),
            None => None,
        }
    }

    /// Sets the style of a cell of the table from two colours, each trimmed;
    /// with neither left, the cell's style is cleared. Nothing changes where
    /// there is no such row.
    pub fn set_cell_style(
        &mut self,
        row_index: usize,
        column: &str,
        color: Option<String>,
        background: Option<String>,
    )
        ensures
            row_index >= old(self).model().data.len() ==> final(self).model() == old(self).model(),
            final(self).model() == (StateModel {
                meta: MetaModel {
                    cell_formulas: final(self).model().meta.cell_formulas,
                    cell_styles: final(self).model().meta.cell_styles,
                    ..old(self).model().meta
                },
                ..old(self).model()
            }),
            row_index < old(self).model().data.len() ==> {
                let before = old(self).model().meta;
                let after = final(self).model().meta;
                &&& after.cell_formulas == grown(before.cell_formulas, row_index + 1)
                &&& after.cell_styles.len() == grown(before.cell_styles, row_index + 1).len()
                &&& forall|i: int|
                    0 <= i < after.cell_styles.len() && i != row_index
                        ==> #[trigger] after.cell_styles[i] == row_entries(before.cell_styles, i)
                &&& pairs_map(after.cell_styles[row_index as int]) == {
                    let styles = pairs_map(row_entries(before.cell_styles, row_index as int));
                    let c = normal_color(color.model());
                    let b = normal_color(background.model());
                    if c is None && b is None {
                        styles.remove(column@)
                    } else {
                        styles.insert(column@, StyleModel { color: c, background: b })
                    }
                }
            },
            aligned(old(self).model()) ==> aligned(final(self).model()),
    {
        if row_index >= self.data.len() {
            return ;
        }
        self.jsheet_meta.set_cell_style(row_index, column, color, background);
    }

    /// Clears the style set on a cell itself.
    pub fn clear_cell_style(&mut self, row_index: usize, column: &str)
        ensures
            final(self).model() == (StateModel {
                meta: MetaModel {
                    cell_styles: final(self).model().meta.cell_styles,
                    ..old(self).model().meta
                },
                ..old(self).model()
            }),
            final(self).model().meta.cell_styles.len() == old(self).model().meta.cell_styles.len(),
            forall|i: int|
                0 <= i < old(self).model().meta.cell_styles.len() && i != row_index
                    ==> #[trigger] final(self).model().meta.cell_styles[i] == old(
                    self,
                ).model().meta.cell_styles[i],
            row_index < old(self).model().meta.cell_styles.len() ==> pairs_map(
                final(self).model().meta.cell_styles[row_index as int],
            ) == pairs_map(old(self).model().meta.cell_styles[row_index as int]).remove(column@),
            aligned(old(self).model()) ==> aligned(final(self).model()),
    {
        self.jsheet_meta.clear_cell_style(row_index, column);
    }

    /// The inline style of a cell; nothing where there is no such row.
    pub fn cell_inline_style(&self, row_index: usize, column: &str) -> (r: String)
        ensures
            r@ == if row_index < self.model().data.len() {
                inline_style(
                    self.model().meta,
                    self.model().data[row_index as int],
                    row_index as int,
                    column@,
                )
            } else {
                Seq::<char>::empty()
            },
    {
        if row_index < self.data.len() {
            self.jsheet_meta.cell_style_inline(&self.data[row_index], row_index, column)
        } else {
            String::new()
        }
    }

    /// What the cell at `row_index` under `column` is worth.
    pub fn cell_value(&self, row_index: usize, column: &str) -> (r: Option<Value>)
        ensures
            r.model() == state_cell(self.model(), row_index as int, column@),
    {
        if row_index < self.data.len() {
            self.jsheet_meta.value_for_cell(&self.data[row_index], row_index, column)
        } else {
            None
        }
    }

    /// What the cell at `row_index` under `column` shows.
    pub fn cell_display_value(&self, row_index: usize, column: &str) -> (r: String)
        ensures
            r@ == match state_cell(self.model(), row_index as int, column@) {
                Some(v) => display_text(v),
                None => Seq::<char>::empty(),
            },
    {
        match self.cell_value(row_index, column) {
            Some(v) => display_value(&v),
            None => String::new(),
        }
    }

    /// The summary text of a column over the rows in view.
    pub fn summary_display_for_column(&self, column: &str) -> (r: Option<String>)
        ensures
            r.model() == summary_text(
                self.model().meta,
                self.model().data,
                visible_rows(self.model()),
                column@,
            ),
    {
        let rows = self.visible_row_indices();
        self.jsheet_meta.summary_display_for_column(&self.data, &rows, column)
    }

    /// Steps back to the state before the last edit; false where there is none.
    pub fn undo(&mut self) -> (r: bool)
        ensures
            r == (old(self).model().undo.len() > 0),
            r ==> final(self).model() == undone(old(self).model()),
            !r ==> final(self).model() == old(self).model(),
            aligned(old(self).model()) ==> aligned(final(self).model()),
    {
        match self.undo_stack.pop() {
            Some(entry) => {
                let current = self.snapshot();
                self.redo_stack.push(current);
                self.restore(entry);
                proof {
                    assert(self.model().undo =~= old(self).model().undo.drop_last());
                    assert(self.model().redo =~= old(self).model().redo.push(
                        snapshot_of(old(self).model()),
                    ));
                }
                true
            },
            None => {
                assert(self.model().undo =~= old(self).model().undo);
                false
            },
        }
    }

    /// Steps forward to the state that the last undo left; false where there is none.
    pub fn redo(&mut self) -> (r: bool)
        ensures
            r == (old(self).model().redo.len() > 0),
            r ==> final(self).model() == redone(old(self).model()),
            !r ==> final(self).model() == old(self).model(),
            aligned(old(self).model()) ==> aligned(final(self).model()),
    {
        match self.redo_stack.pop() {
            Some(entry) => {
                let current = self.snapshot();
                self.undo_stack.push(current);
                self.restore(entry);
                proof {
                    assert(self.model().redo =~= old(self).model().redo.drop_last());
                    assert(self.model().undo =~= old(self).model().undo.push(
                        snapshot_of(old(self).model()),
                    ));
                }
                true
            },
            None => {
                assert(self.model().redo =~= old(self).model().redo);
                false
            },
        }
    }

    /// Sets the filter: a column and a query, the query trimmed.
    pub fn set_filter(&mut self, column: Option<String>, query: String)
        ensures
            final(self).model() == (StateModel {
                filter_column: column.model(),
                filter_query: trim(query@),
                ..old(self).model()
            }),
    {
        self.filter_column = column;
        self.filter_query = trimmed(query.as_str());
    }

    pub fn clear_filter(&mut self)
        ensures
            final(self).model() == (StateModel {
                filter_column: None,
                filter_query: Seq::empty(),
                ..old(self).model()
            }),
    {
        self.filter_column = None;
        self.filter_query = String::new();
    }

    /// Sets the search query, trimmed.
    pub fn set_search(&mut self, query: String)
        ensures
            final(self).model() == (StateModel {
                search_query: trim(query@),
                ..old(self).model()
            }),
    {
        self.search_query = trimmed(query.as_str());
    }

    /// The indices of the rows that the filter lets through, rising.
    pub fn visible_row_indices(&self) -> (r: Vec<usize>)
        ensures
            r@ == visible_rows(self.model()),
    {
        let mut out: Vec<usize> = Vec::new();
        let mut i: usize = 0;
        while i < self.data.len()
            invariant
                i <= self.data.len(),
                out@ == visible_upto(self.model(), i as int),
            decreases self.data.len() - i,
        {
            if self.row_matches_filter(i) {
                out.push(i);
            }
            i += 1;
        }
        out
    }

    /// Whether the search marks the cell at `row_index` under `column`.
    pub fn cell_matches_search(&self, row_index: usize, column: &str) -> (r: bool)
        ensures
            r == search_hit(self.model(), row_index as int, column@),
    {
        if self.search_query.as_str().is_empty() {
            return false;
        }
        if row_index >= self.data.len() {
            return false;
        }
        let value = self.jsheet_meta.value_for_cell(&self.data[row_index], row_index, column);
        value_shows(&value, self.search_query.as_str())
    }

    fn row_matches_filter(&self, row_index: usize) -> (r: bool)
        requires
            row_index < self.model().data.len(),
        ensures
            r == row_visible(self.model(), row_index as int),
    {
        if self.filter_query.as_str().is_empty() {
            return true;
        }
        match &self.filter_column {
            Some(column) => {
                let value = self.jsheet_meta.value_for_cell(
                    &self.data[row_index],
                    row_index,
                    column.as_str(),
                );
                value_shows(&value, self.filter_query.as_str())
            },
            None => true,
        }
    }

    fn snapshot(&self) -> (r: HistoryEntry)
        ensures
            r.model() == snapshot_of(self.model()),
    {
        HistoryEntry {
            data: self.data.copy_of(),
            jsheet_meta: self.jsheet_meta.copy_of(),
            sort_spec: self.sort_spec.copy_of(),
        }
    }

    fn push_undo_snapshot(&mut self)
        ensures
            final(self).model() == mutated(
                old(self).model(),
                old(self).model().data,
                old(self).model().meta,
                old(self).model().sort_spec,
            ),
    {
        let entry = self.snapshot();
        self.undo_stack.push(entry);
        self.redo_stack = Vec::new();
        proof {
            assert(self.model().undo =~= old(self).model().undo.push(snapshot_of(old(self).model())));
            assert(self.model().redo =~= Seq::<HistoryModel>::empty());
        }
    }

    fn restore(&mut self, entry: HistoryEntry)
        ensures
            final(self).model() == (StateModel {
                data: entry.model().data,
                meta: entry.model().meta,
                sort_spec: entry.model().sort_spec,
                ..old(self).model()
            }),
    {
        self.data = entry.data;
        self.jsheet_meta = entry.jsheet_meta;
        self.sort_spec = entry.sort_spec;
    }
}

/// Whether `set_cell_formula` takes a formula text for a cell.
pub open spec fn formula_settable(s: StateModel, row_index: usize, column: Seq<char>, text: Seq<char>) -> bool {
    match normalized(text) {
        Some(body) => entry_at(s.meta.cell_formulas, row_index as int, column) != Some(body)
            && row_index < s.data.len() && trim(column).len() > 0 && is_formula(body),
        None => false,
    }
}

/// The state `t` is what loading `data` with `meta` into the state `s` gives.
pub open spec fn loaded(t: StateModel, s: StateModel, data: TableModel, meta: MetaModel) -> bool {
    &&& t == (StateModel { data: t.data, meta: t.meta, ..empty_state() })
    &&& t.meta == (MetaModel {
        row_key: t.meta.row_key,
        cell_formulas: resized(meta.cell_formulas, data.len() as int),
        cell_styles: resized(meta.cell_styles, data.len() as int),
        ..meta
    })
    &&& meta.row_key is Some || data.len() == 0 ==> t.meta.row_key == meta.row_key
    &&& meta.row_key is None && data.len() > 0 ==> first_row_key(data, t.meta.row_key)
    &&& t.data.len() == data.len()
    &&& meta.comment_columns.len() == 0 ==> t.data == data
    &&& meta.comment_columns.len() > 0 ==> forall|i: int|
        0 <= i < data.len() ==> pairs_map(#[trigger] t.data[i]) == with_comments(
            data[i],
            row_entries(meta.comment_rows, i),
            meta.comment_columns,
        )
}

impl Default for TableState {
    fn default() -> (r: Self)
        ensures
            r.model() == empty_state(),
    {
        TableState::new()
    }
}

} // verus!

verus! {

/// The value that `set_cell_value` stores, where it stores one: the candidate
/// as the column takes it, unless there is no such row or the cell holds that
/// value already.
pub open spec fn value_to_store(
    s: StateModel,
    row_index: usize,
    column: Seq<char>,
    value: ValueModel,
) -> Option<ValueModel> {
    match coerced_for_column(s.meta, column, value, None) {
        Some(c) => if row_index < s.data.len() && entry_of(s.data[row_index as int], column)
            != Some(c) {
            Some(c)
        } else {
            None
        },
        None => None,
    }
}

/// The state after the cell at `row_index` under `column` took the value `c`.
pub open spec fn with_value(s: StateModel, row_index: usize, column: Seq<char>, c: ValueModel) -> StateModel {
    mutated(
        s,
        s.data.update(row_index as int, put(s.data[row_index as int], column, c)),
        s.meta,
        None,
    )
}

/// What one edit of a batch does to rows and metadata, and whether it changed
/// anything. The column name is trimmed. A formula edit is skipped where the
/// name is empty, there is no such row, the text normalizes to nothing or to
/// the formula the cell has, or it is no formula. A value edit is skipped
/// where the name is empty, there is no such row, the column refuses the
/// value, or the cell holds that value and no formula; otherwise the cell
/// takes the value and loses its formula.
pub open spec fn edit_step(data: TableModel, meta: MetaModel, e: EditModel) -> (
    TableModel,
    MetaModel,
    bool,
) {
    let column = trim(e.column);
    let row = e.row_index as int;
    if column.len() == 0 || row >= data.len() {
        (data, meta, false)
    } else {
        match e.kind {
            EditKindModel::Formula(text) => match normalized(text) {
                Some(body) => if entry_at(meta.cell_formulas, row, column) != Some(body)
                    && is_formula(body) {
                    (data, with_formula(meta, row, column, normalized(body)->0), true)
                } else {
                    (data, meta, false)
                },
                None => (data, meta, false),
            },
            EditKindModel::Value(v) => match coerced_for_column(meta, column, v, None) {
                Some(c) => if entry_of(data[row], column) == Some(c) && entry_at(
                    meta.cell_formulas,
                    row,
                    column,
                ) is None {
                    (data, meta, false)
                } else {
                    (
                        data.update(row, put(data[row], column, c)),
                        without_formula(meta, row, column),
                        true,
                    )
                },
                None => (data, meta, false),
            },
        }
    }
}

/// What the first `n` edits of a batch do, one after the other, and how many
/// of them changed anything.
pub open spec fn edits_applied(data: TableModel, meta: MetaModel, edits: Seq<EditModel>, n: int) -> (
    TableModel,
    MetaModel,
    nat,
)
    decreases n,
{
    if n <= 0 {
        (data, meta, 0)
    } else {
        let before = edits_applied(data, meta, edits, n - 1);
        let step = edit_step(before.0, before.1, edits[n - 1]);
        (
            step.0,
            step.1,
            if step.2 {
                before.2 + 1
            } else {
                before.2
            },
        )
    }
}

/// The row that holds null under every known column.
pub open spec fn blank_known_row(meta: MetaModel, data: TableModel) -> Map<Seq<char>, ValueModel> {
    Map::new(|k: Seq<char>| known_column(meta, data, k), |k: Seq<char>| ValueModel::Null)
}

/// The rows gathered in a new order: row `i` of the result is row `order[i]`.
pub open spec fn gathered_rows(data: TableModel, order: Seq<usize>) -> TableModel {
    Seq::new(order.len(), |i: int| data[order[i] as int])
}

/// What each row is worth under `column`: the keys of a sort by that column.
pub open spec fn sort_keys(s: StateModel, column: Seq<char>) -> Seq<Option<ValueModel>> {
    Seq::new(s.data.len(), |i: int| state_cell(s, i, column))
}

/// The state after a sort by `column` that puts the rows in `order`.
pub open spec fn sorted_state(s: StateModel, column: Seq<char>, order: Seq<usize>) -> StateModel {
    mutated(
        s,
        gathered_rows(s.data, order),
        MetaModel {
            cell_formulas: gathered(s.meta.cell_formulas, order),
            cell_styles: gathered(s.meta.cell_styles, order),
            ..s.meta
        },
        Some(SortSpecModel { column, order: toggled(s.sort_spec, column) }),
    )
}

/// A row with its formulas computed: every known column that is worth
/// something holds that, and any other member stays.
pub open spec fn computed_row(meta: MetaModel, data: TableModel, i: int) -> Map<
    Seq<char>,
    ValueModel,
> {
    let formulas = row_entries(meta.cell_formulas, i);
    Map::new(
        |k: Seq<char>|
            has_key(data[i], k) || (known_column(meta, data, k) && cell_value(formulas, data[i], k)
                is Some),
        |k: Seq<char>|
            if known_column(meta, data, k) && cell_value(formulas, data[i], k) is Some {
                cell_value(formulas, data[i], k)->0
            } else {
                pairs_map(data[i])[k]
            },
    )
}

/// `computed_row`, for the first `n` known columns.
pub open spec fn computed_upto(
    meta: MetaModel,
    data: TableModel,
    i: int,
    known: Seq<Seq<char>>,
    n: int,
) -> Map<Seq<char>, ValueModel> {
    let formulas = row_entries(meta.cell_formulas, i);
    Map::new(
        |k: Seq<char>|
            has_key(data[i], k) || (items_upto(known, n).contains(k) && cell_value(
                formulas,
                data[i],
                k,
            ) is Some),
        |k: Seq<char>|
            if items_upto(known, n).contains(k) && cell_value(formulas, data[i], k) is Some {
                cell_value(formulas, data[i], k)->0
            } else {
                pairs_map(data[i])[k]
            },
    )
}

/// Row `i` can be written out.
pub open spec fn row_exports(meta: MetaModel, data: TableModel, i: int) -> bool {
    let formulas = row_entries(meta.cell_formulas, i);
    &&& forall|k: Seq<char>| !formula_fails(formulas, data[i], k)
    &&& forall|k: Seq<char>| !type_fails(meta, formulas, data[i], k)
}

/// What exporting the table comes to: every row written out, or the failure
/// of the first row that cannot be.
pub open spec fn table_export_outcome(s: StateModel, r: Result<TableData, ExportError>) -> bool {
    match r {
        Ok(rows) => rows@.len() == s.data.len() && forall|i: int|
            0 <= i < s.data.len() ==> export_outcome(
                s.meta,
                s.data[i],
                i as usize,
                Ok::<Row, ExportError>(#[trigger] rows@[i]),
            ),
        Err(e) => exists|i: int|
            0 <= i < s.data.len() && #[trigger] export_outcome(
                s.meta,
                s.data[i],
                i as usize,
                Err::<Row, ExportError>(e),
            ) && forall|j: int| 0 <= j < i ==> row_exports(s.meta, s.data, j),
    }
}

impl TableState {
    /// Writes out every row; the first row that cannot be written out fails
    /// the whole export.
    pub fn export_json_data(&self) -> (r: Result<TableData, ExportError>)
        ensures
            table_export_outcome(self.model(), r),
    {
        let mut rows: TableData = Vec::new();
        let ghost s = self.model();
        let mut i: usize = 0;
        while i < self.data.len()
            invariant
                i <= self.data.len(),
                s == self.model(),
                rows@.len() == i,
                forall|a: int|
                    0 <= a < i ==> export_outcome(
                        s.meta,
                        s.data[a],
                        a as usize,
                        Ok::<Row, ExportError>(#[trigger] rows@[a]),
                    ),
            decreases self.data.len() - i,
        {
            assert(s.data[i as int] == self.data@[i as int].model());
            match self.jsheet_meta.export_row_with_formulas(&self.data[i], i) {
                Ok(row) => {
                    rows.push(row);
                },
                Err(e) => {
                    proof {
                        assert(export_outcome(
                            s.meta,
                            s.data[i as int],
                            i as usize,
                            Err::<Row, ExportError>(e),
                        ));
                        assert forall|j: int| 0 <= j < i implies row_exports(s.meta, s.data, j) by {
                            assert(export_outcome(
                                s.meta,
                                s.data[j],
                                j as usize,
                                Ok::<Row, ExportError>(rows@[j]),
                            ));
                        }
                    }
                    return Err(e);
                },
            }
            i += 1;
        }
        Ok(rows)
    }

    /// The row at `row_index` with its formulas computed; none where there is
    /// no such row.
    pub fn row_with_computed(&self, row_index: usize) -> (r: Option<Row>)
        ensures
            r is Some <==> row_index < self.model().data.len(),
            r is Some ==> r->0.map() == computed_row(
                self.model().meta,
                self.model().data,
                row_index as int,
            ),
    {
        if row_index >= self.data.len() {
            return None;
        }
        let ghost s = self.model();
        let base = &self.data[row_index];
        assert(s.data[row_index as int] == base.pairs());
        let bl = base.len();
        let mut row = base.copy_of();
        let rl = row.len();
        let known = self.jsheet_meta.known_columns(&self.data);
        let n = known.len();
        let ghost items = known.items();
        proof {
            lemma_pairs_map(base.pairs());
            lemma_pairs_map(row.pairs());
            if n > 0 {
                lemma_items_upto_step(items, 0);
            }
            assert(items_upto(items, 0) =~= Set::<Seq<char>>::empty());
            assert(row.map() =~= computed_upto(s.meta, s.data, row_index as int, items, 0));
        }
        let mut j: usize = 0;
        while j < n
            invariant
                j <= n,
                n == items.len(),
                items == known.items(),
                s == self.model(),
                row_index < self.data.len(),
                base == &self.data[row_index as int],
                s.data[row_index as int] == base.pairs(),
                sorted_keys(base.pairs()),
                row.map() == computed_upto(s.meta, s.data, row_index as int, items, j as int),
            decreases n - j,
        {
            let column = known.item_at(j);
            proof {
                lemma_items_upto_step(items, j as int);
                lemma_pairs_map(base.pairs());
            }
            match self.jsheet_meta.value_for_cell(base, row_index, column.as_str()) {
                Some(v) => {
                    row.insert(column.clone(), v);
                },
                None => {},
            }
            assert(row.map() =~= computed_upto(s.meta, s.data, row_index as int, items, j + 1));
            j += 1;
        }
        proof {
            lemma_items_upto_all(items);
            assert forall|k: Seq<char>| items_upto(items, n as int).contains(k) <==> known_column(
                s.meta,
                s.data,
                k,
            ) by {
                assert(known.set().contains(k) <==> items.contains(k));
                assert(items_upto(items, items.len() as int).contains(k) <==> items.contains(k));
            }
            assert(computed_upto(s.meta, s.data, row_index as int, items, n as int) =~= computed_row(
                s.meta,
                s.data,
                row_index as int,
            ));
        }
        Some(row)
    }

    /// Sets a cell from typed input: the input is read as a value, the column
    /// takes it or refuses it, and the cell is set as by `set_cell_value`.
    pub fn set_cell_from_input(&mut self, row_index: usize, column: &str, input: &str) -> (r: bool)
        ensures
            r == match coerced_for_column(
                old(self).model().meta,
                column@,
                parsed_input(input@),
                Some(input@),
            ) {
                Some(v) => value_to_store(old(self).model(), row_index, column@, v) is Some,
                None => false,
            },
            !r ==> final(self).model() == old(self).model(),
            r ==> final(self).model() == with_value(
                old(self).model(),
                row_index,
                column@,
                value_to_store(
                    old(self).model(),
                    row_index,
                    column@,
                    coerced_for_column(
                        old(self).model().meta,
                        column@,
                        parsed_input(input@),
                        Some(input@),
                    )->0,
                )->0,
            ),
            aligned(old(self).model()) ==> aligned(final(self).model()),
    {
        let parsed = parse_cell_input(input);
        match self.jsheet_meta.coerce_value_for_column(column, &parsed, Some(input)) {
            Some(value) => self.set_cell_value(row_index, column, value),
            None => false,
        }
    }

    /// Sets a cell. The column's declared type and validation rule take the
    /// value or refuse it; a refused value, a missing row and a value that the
    /// cell already holds leave the state as it is.
    pub fn set_cell_value(&mut self, row_index: usize, column: &str, value: Value) -> (r: bool)
        ensures
            r == value_to_store(old(self).model(), row_index, column@, value.model()) is Some,
            !r ==> final(self).model() == old(self).model(),
            r ==> final(self).model() == with_value(
                old(self).model(),
                row_index,
                column@,
                value_to_store(old(self).model(), row_index, column@, value.model())->0,
            ),
            aligned(old(self).model()) ==> aligned(final(self).model()),
    {
        let coerced = match self.jsheet_meta.coerce_value_for_column(column, &value, None) {
            Some(v) => v,
            None => {
                return false;
            },
        };
        if row_index >= self.data.len() {
            return false;
        }
        let ghost s = self.model();
        assert(s.data[row_index as int] == self.data@[row_index as int].pairs());
        let rl = self.data[row_index].len();
        proof {
            lemma_pairs_map(s.data[row_index as int]);
        }
        match self.data[row_index].get(column) {
            Some(current) => {
                if current.same_as(&coerced) {
                    return false;
                }
            },
            None => {},
        }
        self.push_undo_snapshot();
        self.sort_spec = None;
        crate::data_model::set_cell_value(&mut self.data, row_index, column, coerced);
        true
    }

    /// Applies a batch of edits in order. Edits that cannot be applied are
    /// skipped. Where none changed anything the state stays as it is; otherwise
    /// the whole batch is one step of history.
    pub fn apply_cell_edits(&mut self, edits: Vec<CellEdit>) -> (r: usize)
        ensures
            ({
                let s = old(self).model();
                let done = edits_applied(s.data, s.meta, edits.model(), edits@.len() as int);
                &&& r == done.2
                &&& r == 0 ==> final(self).model() == s
                &&& r > 0 ==> final(self).model() == mutated(s, done.0, done.1, None)
            }),
            aligned(old(self).model()) ==> aligned(final(self).model()),
    {
        let ghost s = self.model();
        let ghost em = edits.model();
        let mut next_data = self.data.copy_of();
        let mut next_meta = self.jsheet_meta.copy_of();
        let mut changed: usize = 0;
        let mut i: usize = 0;
        while i < edits.len()
            invariant
                i <= edits.len(),
                em == edits.model(),
                s == self.model(),
                changed <= i,
                edits_applied(s.data, s.meta, em, i as int) == (
                    next_data.model(),
                    next_meta.model(),
                    changed as nat,
                ),
                rows_aligned(s.data, s.meta) ==> rows_aligned(next_data.model(), next_meta.model()),
            decreases edits.len() - i,
        {
            let edit = &edits[i];
            assert(em[i as int] == edit.model());
            let ghost d = next_data.model();
            let ghost m = next_meta.model();
            let column = trimmed(edit.column.as_str());
            let row_index = edit.row_index;
            if !column.as_str().is_empty() && row_index < next_data.len() {
                proof {
                    crate::text::lemma_trim_idempotent(edit.column@);
                    assert(d[row_index as int] == next_data@[row_index as int].pairs());
                }
                match &edit.kind {
                    CellEditKind::Formula(formula) => {
                        match normalize_formula(formula.as_str()) {
                            Some(body) => {
                                let same = match next_meta.formula_for_cell(
                                    row_index,
                                    column.as_str(),
                                ) {
                                    Some(current) => same_text(current.as_str(), body.as_str()),
                                    None => false,
                                };
                                if !same {
                                    if next_meta.set_formula_for_cell(
                                        row_index,
                                        column.as_str(),
                                        body,
                                    ) {
                                        changed += 1;
                                    }
                                }
                            },
                            None => {},
                        }
                    },
                    CellEditKind::Value(value) => {
                        match next_meta.coerce_value_for_column(column.as_str(), value, None) {
                            Some(coerced) => {
                                let had_formula = next_meta.formula_for_cell(
                                    row_index,
                                    column.as_str(),
                                ).is_some();
                                let rl = next_data[row_index].len();
                                proof {
                                    lemma_pairs_map(d[row_index as int]);
                                }
                                let unchanged = match next_data[row_index].get(column.as_str()) {
                                    Some(current) => current.same_as(&coerced),
                                    None => false,
                                };
                                if !(unchanged && !had_formula) {
                                    crate::data_model::set_cell_value(
                                        &mut next_data,
                                        row_index,
                                        column.as_str(),
                                        coerced,
                                    );
                                    next_meta.remove_formula_for_cell(row_index, column.as_str());
                                    changed += 1;
                                }
                            },
                            None => {},
                        }
                    },
                }
            }
            i += 1;
        }
        if changed == 0 {
            return 0;
        }
        self.push_undo_snapshot();
        self.sort_spec = None;
        self.data = next_data;
        self.jsheet_meta = next_meta;
        changed
    }

    /// Adds a row that holds null under every known column.
    pub fn add_row(&mut self) -> (r: bool)
        ensures
            r,
            final(self).model() == mutated(
                old(self).model(),
                final(self).model().data,
                MetaModel {
                    cell_formulas: resized(
                        old(self).model().meta.cell_formulas,
                        (old(self).model().data.len() + 1) as int,
                    ),
                    cell_styles: resized(
                        old(self).model().meta.cell_styles,
                        (old(self).model().data.len() + 1) as int,
                    ),
                    ..old(self).model().meta
                },
                None,
            ),
            final(self).model().data.len() == old(self).model().data.len() + 1,
            final(self).model().data.drop_last() == old(self).model().data,
            pairs_map(final(self).model().data.last()) == blank_known_row(
                old(self).model().meta,
                old(self).model().data,
            ),
            aligned(old(self).model()) ==> aligned(final(self).model()),
    {
        let ghost s = self.model();
        let known = self.jsheet_meta.known_columns(&self.data);
        let n = known.len();
        let ghost items = known.items();
        let mut row: Row = StrMap::new();
        proof {
            if n > 0 {
                lemma_items_upto_step(items, 0);
            }
            assert(items_upto(items, 0) =~= Set::<Seq<char>>::empty());
            assert(row.map() =~= nulls_under(items_upto(items, 0)));
        }
        let mut j: usize = 0;
        while j < n
            invariant
                j <= n,
                n == items.len(),
                items == known.items(),
                row.map() == nulls_under(items_upto(items, j as int)),
            decreases n - j,
        {
            row.insert(known.item_at(j).clone(), Value::Null);
            proof {
                lemma_items_upto_step(items, j as int);
                assert(row.map() =~= nulls_under(items_upto(items, j + 1)));
            }
            j += 1;
        }
        proof {
            lemma_items_upto_all(items);
            assert forall|k: Seq<char>| items_upto(items, n as int).contains(k) <==> known_column(
                s.meta,
                s.data,
                k,
            ) by {
                assert(known.set().contains(k) <==> items.contains(k));
                assert(items_upto(items, items.len() as int).contains(k) <==> items.contains(k));
            }
            assert(row.map() =~= blank_known_row(s.meta, s.data));
        }
        self.push_undo_snapshot();
        self.sort_spec = None;
        self.data.push(row);
        self.jsheet_meta.resize_row_metadata(self.data.len());
        proof {
            assert(self.model().data.drop_last() =~= s.data);
        }
        true
    }

    /// Deletes the row at `row_index` with its formulas and styles; false
    /// where there is no such row.
    pub fn delete_row(&mut self, row_index: usize) -> (r: bool)
        ensures
            r == (row_index < old(self).model().data.len()),
            !r ==> final(self).model() == old(self).model(),
            r ==> final(self).model() == mutated(
                old(self).model(),
                old(self).model().data.remove(row_index as int),
                MetaModel {
                    cell_formulas: if row_index < old(self).model().meta.cell_formulas.len() {
                        old(self).model().meta.cell_formulas.remove(row_index as int)
                    } else {
                        old(self).model().meta.cell_formulas
                    },
                    cell_styles: if row_index < old(self).model().meta.cell_styles.len() {
                        old(self).model().meta.cell_styles.remove(row_index as int)
                    } else {
                        old(self).model().meta.cell_styles
                    },
                    ..old(self).model().meta
                },
                None,
            ),
            aligned(old(self).model()) ==> aligned(final(self).model()),
    {
        if row_index >= self.data.len() {
            return false;
        }
        self.push_undo_snapshot();
        self.sort_spec = None;
        let deleted = crate::data_model::delete_row(&mut self.data, row_index);
        self.jsheet_meta.remove_row_metadata(row_index);
        deleted
    }

    /// Adds a column of nulls under the trimmed `name`. An empty name, or one
    /// that some row already has, is refused; an empty table gets its first
    /// row. The per-row metadata follows the number of rows.
    pub fn add_column(&mut self, name: &str) -> (r: bool)
        ensures
            r == (trim(name@).len() > 0 && !column_in(old(self).model().data, trim(name@))),
            !r ==> final(self).model() == old(self).model(),
            r ==> final(self).model() == mutated(
                old(self).model(),
                final(self).model().data,
                MetaModel {
                    cell_formulas: resized(
                        old(self).model().meta.cell_formulas,
                        final(self).model().data.len() as int,
                    ),
                    cell_styles: resized(
                        old(self).model().meta.cell_styles,
                        final(self).model().data.len() as int,
                    ),
                    ..old(self).model().meta
                },
                None,
            ),
            r && old(self).model().data.len() == 0 ==> final(self).model().data.len() == 1
                && pairs_map(final(self).model().data[0]) == Map::<Seq<char>, ValueModel>::empty().insert(
                trim(name@),
                ValueModel::Null,
            ),
            r && old(self).model().data.len() > 0 ==> final(self).model().data.len() == old(
                self,
            ).model().data.len() && forall|i: int|
                0 <= i < old(self).model().data.len() ==> pairs_map(
                    #[trigger] final(self).model().data[i],
                ) == pairs_map(old(self).model().data[i]).insert(trim(name@), ValueModel::Null),
            aligned(old(self).model()) ==> aligned(final(self).model()),
    {
        let mut next = self.data.copy_of();
        if !crate::data_model::add_column(&mut next, name) {
            return false;
        }
        self.push_undo_snapshot();
        self.sort_spec = None;
        self.data = next;
        self.jsheet_meta.resize_row_metadata(self.data.len());
        true
    }

    /// Deletes the column under the trimmed `name` from every row, and with it
    /// all that the metadata holds about it; false where no row had it. A
    /// filter on that column is cleared.
    pub fn delete_column(&mut self, name: &str) -> (r: bool)
        ensures
            r == column_in(old(self).model().data, trim(name@)),
            !r ==> final(self).model() == old(self).model(),
            r ==> final(self).model() == (StateModel {
                filter_column: if old(self).model().filter_column == Some(trim(name@)) {
                    None
                } else {
                    old(self).model().filter_column
                },
                filter_query: if old(self).model().filter_column == Some(trim(name@)) {
                    Seq::empty()
                } else {
                    old(self).model().filter_query
                },
                ..mutated(
                    old(self).model(),
                    final(self).model().data,
                    final(self).model().meta,
                    None,
                )
            }),
            r ==> final(self).model().data.len() == old(self).model().data.len() && forall|i: int|
                0 <= i < old(self).model().data.len() ==> pairs_map(
                    #[trigger] final(self).model().data[i],
                ) == pairs_map(old(self).model().data[i]).remove(trim(name@)),
            r ==> column_forgotten(old(self).model().meta, final(self).model().meta, trim(name@)),
            r && old(self).model().filter_column == Some(trim(name@)) ==> visible_rows(
                final(self).model(),
            ).len() == final(self).model().data.len(),
            aligned(old(self).model()) ==> aligned(final(self).model()),
    {
        let name_trimmed = trimmed(name);
        let mut next = self.data.copy_of();
        proof {
            crate::text::lemma_trim_idempotent(name@);
        }
        if !crate::data_model::delete_column(&mut next, name_trimmed.as_str()) {
            return false;
        }
        self.push_undo_snapshot();
        self.sort_spec = None;
        self.jsheet_meta.remove_column_metadata(name_trimmed.as_str());
        let filtered = match &self.filter_column {
            Some(c) => same_text(c.as_str(), name_trimmed.as_str()),
            None => false,
        };
        if filtered {
            self.clear_filter();
        }
        self.data = next;
        let rows: usize = self.data.len();
        proof {
            if filtered {
                assert(self.model().data.len() == rows);
                lemma_no_query_shows_all(self.model(), self.model().data.len() as int);
            }
        }
        true
    }

    /// Sorts the rows by what they are worth under `column`, ascending at the
    /// first toggle on a column and then in turns descending and ascending.
    /// The sort is stable; a descending sort is the ascending one reversed.
    /// Formulas and styles follow their rows.
    pub fn sort_by_column_toggle(&mut self, column: &str) -> (r: bool)
        ensures
            r,
            exists|order: Seq<usize>|
                sorts(
                    order,
                    sort_keys(old(self).model(), column@),
                    toggled(old(self).model().sort_spec, column@) == SortOrder::Desc,
                ) && final(self).model() == #[trigger] sorted_state(old(self).model(), column@, order),
            aligned(old(self).model()) ==> aligned(final(self).model()),
    {
        let ghost s = self.model();
        let next_order = match &self.sort_spec {
            Some(spec) => if same_text(spec.column.as_str(), column) {
                toggle_sort_order(&spec.order)
            } else {
                SortOrder::Asc
            },
            None => SortOrder::Asc,
        };
        let mut keys: Vec<Option<Value>> = Vec::new();
        let mut i: usize = 0;
        while i < self.data.len()
            invariant
                i <= self.data.len(),
                s == self.model(),
                keys@.len() == i,
                forall|a: int| 0 <= a < i ==> (#[trigger] keys@[a]).model() == state_cell(s, a, column@),
            decreases self.data.len() - i,
        {
            keys.push(self.jsheet_meta.value_for_cell(&self.data[i], i, column));
            i += 1;
        }
        assert(keys.model() =~= sort_keys(s, column@));
        let order = sort_order(&keys, next_order == SortOrder::Desc);
        let mut sorted: TableData = Vec::new();
        let mut j: usize = 0;
        while j < order.len()
            invariant
                j <= order.len(),
                s == self.model(),
                order@.len() == s.data.len(),
                forall|a: int| 0 <= a < order@.len() ==> #[trigger] order@[a] < s.data.len(),
                sorted@.len() == j,
                forall|a: int| 0 <= a < j ==> (#[trigger] sorted@[a]).model() == s.data[order@[a] as int],
            decreases order.len() - j,
        {
            sorted.push(self.data[order[j]].copy_of());
            j += 1;
        }
        assert(sorted.model() =~= gathered_rows(s.data, order@));
        self.push_undo_snapshot();
        self.data = sorted;
        self.jsheet_meta.reorder_row_metadata(&order);
        self.sort_spec = Some(SortSpec { column: column.to_owned(), order: next_order });
        proof {
            assert(self.model() == sorted_state(s, column@, order@));
        }
        true
    }

    /// Declares the trimmed `column` a comment column, or an ordinary one
    /// again; nothing happens for an empty name. Every row gets a member for
    /// a new comment column, and an empty table gets its first row.
    pub fn set_comment_column(&mut self, column: &str, is_comment: bool)
        ensures
            trim(column@).len() == 0 ==> final(self).model() == old(self).model(),
            final(self).model() == (StateModel {
                data: final(self).model().data,
                meta: final(self).model().meta,
                ..old(self).model()
            }),
            trim(column@).len() > 0 ==> forall|k: Seq<char>|
                final(self).model().meta.comment_columns.contains(k) <==> if is_comment {
                    old(self).model().meta.comment_columns.contains(k) || k == trim(column@)
                } else {
                    old(self).model().meta.comment_columns.contains(k) && k != trim(column@)
                },
            trim(column@).len() > 0 && !is_comment ==> final(self).model().data == old(
                self,
            ).model().data,
            trim(column@).len() > 0 && is_comment ==> final(self).model().data.len() == if old(
                self,
            ).model().data.len() == 0 {
                1
            } else {
                old(self).model().data.len() as int
            } && forall|i: int|
                0 <= i < final(self).model().data.len() ==> pairs_map(
                    #[trigger] final(self).model().data[i],
                ) == with_null_under(row_entries(old(self).model().data, i), trim(column@)),
            aligned(old(self).model()) ==> aligned(final(self).model()),
    {
        let name = trimmed(column);
        if name.as_str().is_empty() {
            return ;
        }
        let ghost s = self.model();
        self.jsheet_meta.set_comment_column(name.as_str(), is_comment);
        if is_comment {
            if self.data.len() == 0 {
                let row: Row = StrMap::new();
                self.data.push(row);
                self.jsheet_meta.resize_row_metadata(self.data.len());
            }
            let ghost meta_now = self.jsheet_meta.model();
            let mut i: usize = 0;
            while i < self.data.len()
                invariant
                    i <= self.data.len(),
                    name@ == trim(column@),
                    self.model().meta == meta_now,
                    self.data@.len() == if s.data.len() == 0 {
                        1
                    } else {
                        s.data.len() as int
                    },
                    self.model() == (StateModel {
                        data: self.model().data,
                        meta: self.model().meta,
                        ..s
                    }),
                    forall|a: int|
                        0 <= a < i ==> pairs_map(#[trigger] self.data.model()[a]) == with_null_under(
                            row_entries(s.data, a),
                            name@,
                        ),
                    forall|a: int|
                        i <= a < self.data@.len() ==> #[trigger] self.data.model()[a] == row_entries(
                            s.data,
                            a,
                        ),
                decreases self.data.len() - i,
            {
                let ghost before = self.data.model();
                assert(before[i as int] == self.data@[i as int].pairs());
                let rl = self.data[i].len();
                proof {
                    lemma_pairs_map(before[i as int]);
                }
                if !self.data[i].contains_key(name.as_str()) {
                    self.data[i].insert(name.clone(), Value::Null);
                }
                proof {
                    assert(self.data.model()[i as int] == self.data@[i as int].pairs());
                    assert forall|a: int|
                        0 <= a < self.data@.len() && a != i implies #[trigger] self.data.model()[a]
                        == before[a] by {}
                    assert(pairs_map(self.data.model()[i as int]) =~= with_null_under(
                        row_entries(s.data, i as int),
                        name@,
                    ));
                }
                i += 1;
            }
        }
    }
}

/// The map that holds null under each key of a set.
pub open spec fn nulls_under(keys: Set<Seq<char>>) -> Map<Seq<char>, ValueModel> {
    Map::new(|k: Seq<char>| keys.contains(k), |k: Seq<char>| ValueModel::Null)
}

/// A row that holds null under `column` unless it holds something there.
pub open spec fn with_null_under(row: RowModel, column: Seq<char>) -> Map<Seq<char>, ValueModel> {
    if has_key(row, column) {
        pairs_map(row)
    } else {
        pairs_map(row).insert(column, ValueModel::Null)
    }
}

/// The metadata `after` is `before` without anything about `column`.
pub open spec fn column_forgotten(before: MetaModel, after: MetaModel, column: Seq<char>) -> bool {
    &&& after.column_order == before.column_order
    &&& after.row_key == before.row_key
    &&& after.frozen_columns == before.frozen_columns
    &&& pairs_map(after.columns) == pairs_map(before.columns).remove(column)
    &&& pairs_map(after.summaries) == pairs_map(before.summaries).remove(column)
    &&& pairs_map(after.validation) == pairs_map(before.validation).remove(column)
    &&& forall|k: Seq<char>|
        after.comment_columns.contains(k) <==> before.comment_columns.contains(k) && k != column
    &&& after.cell_formulas.len() == before.cell_formulas.len()
    &&& forall|i: int|
        0 <= i < before.cell_formulas.len() ==> pairs_map(#[trigger] after.cell_formulas[i])
            == pairs_map(before.cell_formulas[i]).remove(column)
    &&& after.cell_styles.len() == before.cell_styles.len()
    &&& forall|i: int|
        0 <= i < before.cell_styles.len() ==> pairs_map(#[trigger] after.cell_styles[i])
            == pairs_map(before.cell_styles[i]).remove(column)
}

} // verus!
