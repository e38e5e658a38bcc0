//! The sidecar metadata of a sheet: declared column types, cell formulas and
//! styles, comment columns, summaries, conditional formats, validation rules,
//! column order and frozen columns.

use vstd::prelude::*;
use crate::data_model::{Row, RowModel};
use crate::formula::{is_formula, normalize_formula, normalized, parse_formula, validate_formula};
use crate::model::{ref_model, Model};
use crate::number::Number;
use crate::strmap::{
    has_key, lemma_pairs_map, pairs_map, put, sorted_keys, without, StrMap, StrSet,
};
use crate::text::{trim, trimmed};

verus! {

broadcast use vstd::std_specs::vec::group_vec_axioms;

#[derive(Clone, Copy, Debug, PartialEq, Eq, Structural)]
pub enum ColumnType {
    String,
    Number,
    Bool,
    Null,
}

#[derive(Clone, Copy, Debug, PartialEq, Eq, Structural)]
pub struct ColumnConstraint {
    pub value_type: ColumnType,
}

#[derive(Clone, Copy, Debug, PartialEq, Eq, Structural)]
pub enum SummaryKind {
    Sum,
    Avg,
    Count,
    Min,
    Max,
}

#[derive(Debug, PartialEq)]
pub struct ColumnStyle {
    pub color: Option<String>,
    pub background: Option<String>,
}

pub struct StyleModel {
    pub color: Option<Seq<char>>,
    pub background: Option<Seq<char>>,
}

/// A style that a column's cells take on while a rule holds of them.
#[derive(Debug, PartialEq)]
pub struct ConditionalFormat {
    pub column: String,
    pub rule: String,
    pub style: ColumnStyle,
}

pub struct FormatModel {
    pub column: Seq<char>,
    pub rule: Seq<char>,
    pub style: StyleModel,
}

/// What a column accepts: a least and a greatest number, and a list of
/// admitted texts. A rule with none of the three admits everything.
#[derive(Debug, PartialEq)]
pub struct ValidationRule {
    pub min: Option<Number>,
    pub max: Option<Number>,
    pub enum_values: Option<Vec<String>>,
}

pub struct RuleModel {
    pub min: Option<int>,
    pub max: Option<int>,
    pub enum_values: Option<Seq<Seq<char>>>,
}

#[derive(Debug, PartialEq)]
pub struct JSheetMeta {
    pub columns: StrMap<ColumnConstraint>,
    pub column_order: Vec<String>,
    pub row_key: Option<String>,
    pub comment_columns: StrSet,
    pub comment_rows: Vec<Row>,
    pub summaries: StrMap<SummaryKind>,
    pub cell_formulas: Vec<StrMap<String>>,
    pub cell_styles: Vec<StrMap<ColumnStyle>>,
    pub conditional_formats: Vec<ConditionalFormat>,
    pub validation: StrMap<ValidationRule>,
    pub frozen_columns: Option<usize>,
}

pub struct MetaModel {
    pub columns: Seq<(Seq<char>, ColumnConstraint)>,
    pub column_order: Seq<Seq<char>>,
    pub row_key: Option<Seq<char>>,
    pub comment_columns: Seq<Seq<char>>,
    pub comment_rows: Seq<RowModel>,
    pub summaries: Seq<(Seq<char>, SummaryKind)>,
    pub cell_formulas: Seq<Seq<(Seq<char>, Seq<char>)>>,
    pub cell_styles: Seq<Seq<(Seq<char>, StyleModel)>>,
    pub conditional_formats: Seq<FormatModel>,
    pub validation: Seq<(Seq<char>, RuleModel)>,
    pub frozen_columns: Option<usize>,
}

impl Model for ColumnType {
    type M = ColumnType;

    open spec fn model(&self) -> ColumnType {
        *self
    }

    fn copy_of(&self) -> (r: Self) {
        *self
    }

    fn same_as(&self, other: &Self) -> (b: bool) {
        *self == *other
    }
}

impl Model for ColumnConstraint {
    type M = ColumnConstraint;

    open spec fn model(&self) -> ColumnConstraint {
        *self
    }

    fn copy_of(&self) -> (r: Self) {
        *self
    }

    fn same_as(&self, other: &Self) -> (b: bool) {
        self.value_type == other.value_type
    }
}

impl Model for SummaryKind {
    type M = SummaryKind;

    open spec fn model(&self) -> SummaryKind {
        *self
    }

    fn copy_of(&self) -> (r: Self) {
        *self
    }

    fn same_as(&self, other: &Self) -> (b: bool) {
        *self == *other
    }
}

impl Model for ColumnStyle {
    type M = StyleModel;

    open spec fn model(&self) -> StyleModel {
        StyleModel { color: self.color.model(), background: self.background.model() }
    }

    fn copy_of(&self) -> (r: Self) {
        ColumnStyle { color: self.color.copy_of(), background: self.background.copy_of() }
    }

    fn same_as(&self, other: &Self) -> (b: bool) {
        self.color.same_as(&other.color) && self.background.same_as(&other.background)
    }
}

impl Default for ColumnStyle {
    fn default() -> (r: Self)
        ensures
            r.color is None,
            r.background is None,
    {
        ColumnStyle { color: None, background: None }
    }
}

impl Model for ConditionalFormat {
    type M = FormatModel;

    open spec fn model(&self) -> FormatModel {
        FormatModel { column: self.column@, rule: self.rule@, style: self.style.model() }
    }

    fn copy_of(&self) -> (r: Self) {
        ConditionalFormat {
            column: self.column.clone(),
            rule: self.rule.clone(),
            style: self.style.copy_of(),
        }
    }

    fn same_as(&self, other: &Self) -> (b: bool) {
        self.column == other.column && self.rule == other.rule && self.style.same_as(&other.style)
    }
}

impl Model for ValidationRule {
    type M = RuleModel;

    open spec fn model(&self) -> RuleModel {
        RuleModel {
            min: self.min.model(),
            max: self.max.model(),
            enum_values: self.enum_values.model(),
        }
    }

    fn copy_of(&self) -> (r: Self) {
        ValidationRule {
            min: self.min.copy_of(),
            max: self.max.copy_of(),
            enum_values: self.enum_values.copy_of(),
        }
    }

    fn same_as(&self, other: &Self) -> (b: bool) {
        self.min.same_as(&other.min) && self.max.same_as(&other.max) && self.enum_values.same_as(
            &other.enum_values,
        )
    }
}

impl Default for ValidationRule {
    fn default() -> (r: Self)
        ensures
            r.min is None,
            r.max is None,
            r.enum_values is None,
    {
        ValidationRule { min: None, max: None, enum_values: None }
    }
}

impl Model for JSheetMeta {
    type M = MetaModel;

    open spec fn model(&self) -> MetaModel {
        MetaModel {
            columns: self.columns.model(),
            column_order: self.column_order.model(),
            row_key: self.row_key.model(),
            comment_columns: self.comment_columns.model(),
            comment_rows: self.comment_rows.model(),
            summaries: self.summaries.model(),
            cell_formulas: self.cell_formulas.model(),
            cell_styles: self.cell_styles.model(),
            conditional_formats: self.conditional_formats.model(),
            validation: self.validation.model(),
            frozen_columns: self.frozen_columns,
        }
    }

    fn copy_of(&self) -> (r: Self) {
        JSheetMeta {
            columns: self.columns.copy_of(),
            column_order: self.column_order.copy_of(),
            row_key: self.row_key.copy_of(),
            comment_columns: self.comment_columns.copy_of(),
            comment_rows: self.comment_rows.copy_of(),
            summaries: self.summaries.copy_of(),
            cell_formulas: self.cell_formulas.copy_of(),
            cell_styles: self.cell_styles.copy_of(),
            conditional_formats: self.conditional_formats.copy_of(),
            validation: self.validation.copy_of(),
            frozen_columns: self.frozen_columns,
        }
    }

    fn same_as(&self, other: &Self) -> (b: bool) {
        self.columns.same_as(&other.columns) && self.column_order.same_as(&other.column_order)
            && self.row_key.same_as(&other.row_key) && self.comment_columns.same_as(
            &other.comment_columns,
        ) && self.comment_rows.same_as(&other.comment_rows) && self.summaries.same_as(
            &other.summaries,
        ) && self.cell_formulas.same_as(&other.cell_formulas) && self.cell_styles.same_as(
            &other.cell_styles,
        ) && self.conditional_formats.same_as(&other.conditional_formats)
            && self.validation.same_as(&other.validation) && self.frozen_columns.same_as(
            &other.frozen_columns,
        )
    }
}

/// The metadata of a sheet that has none.
pub open spec fn empty_meta() -> MetaModel {
    MetaModel {
        columns: Seq::empty(),
        column_order: Seq::empty(),
        row_key: None,
        comment_columns: Seq::empty(),
        comment_rows: Seq::empty(),
        summaries: Seq::empty(),
        cell_formulas: Seq::empty(),
        cell_styles: Seq::empty(),
        conditional_formats: Seq::empty(),
        validation: Seq::empty(),
        frozen_columns: None,
    }
}

/// The entry map of row `i` in per-row metadata; empty where there is no such row.
pub open spec fn row_entries<M>(rows: Seq<Seq<(Seq<char>, M)>>, i: int) -> Seq<(Seq<char>, M)> {
    if 0 <= i < rows.len() {
        rows[i]
    } else {
        Seq::empty()
    }
}

/// The value filed under `k` in row `i` of per-row metadata.
pub open spec fn entry_at<M>(rows: Seq<Seq<(Seq<char>, M)>>, i: int, k: Seq<char>) -> Option<M> {
    if has_key(row_entries(rows, i), k) {
        Some(pairs_map(row_entries(rows, i))[k])
    } else {
        None
    }
}

/// The value filed under `k`.
pub open spec fn entry_of<M>(p: Seq<(Seq<char>, M)>, k: Seq<char>) -> Option<M> {
    if has_key(p, k) {
        Some(pairs_map(p)[k])
    } else {
        None
    }
}

/// Per-row metadata brought to `n` rows: cut behind the last, filled up with
/// empty rows.
pub open spec fn resized<M>(rows: Seq<Seq<(Seq<char>, M)>>, n: int) -> Seq<Seq<(Seq<char>, M)>> {
    Seq::new(n as nat, |i: int| row_entries(rows, i))
}

/// Per-row metadata of at least `n` rows.
pub open spec fn grown<M>(rows: Seq<Seq<(Seq<char>, M)>>, n: int) -> Seq<Seq<(Seq<char>, M)>> {
    if rows.len() >= n {
        rows
    } else {
        resized(rows, n)
    }
}

/// Per-row metadata gathered from old positions: row `i` of the result is row
/// `order[i]` of `rows`.
pub open spec fn gathered<M>(rows: Seq<Seq<(Seq<char>, M)>>, order: Seq<usize>) -> Seq<
    Seq<(Seq<char>, M)>,
> {
    Seq::new(order.len(), |i: int| row_entries(rows, order[i] as int))
}

/// The metadata with the formula `body` attached to the cell at `row` under
/// `column`; the per-row metadata grows to hold the row.
pub open spec fn with_formula(m: MetaModel, row: int, column: Seq<char>, body: Seq<char>) -> MetaModel {
    MetaModel {
        cell_formulas: grown(m.cell_formulas, row + 1).update(
            row,
            put(row_entries(m.cell_formulas, row), column, body),
        ),
        cell_styles: grown(m.cell_styles, row + 1),
        ..m
    }
}

/// The metadata with no formula on the cell at `row` under `column`.
pub open spec fn without_formula(m: MetaModel, row: int, column: Seq<char>) -> MetaModel {
    if 0 <= row < m.cell_formulas.len() {
        MetaModel {
            cell_formulas: m.cell_formulas.update(row, without(m.cell_formulas[row], column)),
            ..m
        }
    } else {
        m
    }
}

/// A colour as it is stored: trimmed, and none where nothing is left.
pub open spec fn normal_color(c: Option<Seq<char>>) -> Option<Seq<char>> {
    match c {
        Some(s) => if trim(s).len() == 0 {
            None
        } else {
            Some(trim(s))
        },
        None => None,
    }
}

/// The inline style text of a style: its colour, then its background.
pub open spec fn inline_text(style: StyleModel) -> Seq<char> {
    let color = match style.color {
        Some(c) => "color: "@ + c + seq![';'],
        None => Seq::<char>::empty(),
    };
    let background = match style.background {
        Some(b) => "background-color: "@ + b + seq![';'],
        None => Seq::<char>::empty(),
    };
    color + background
}

pub fn normalize_color(value: Option<String>) -> (r: Option<String>)
    ensures
        r.model() == normal_color(value.model()),
{
    match value {
        Some(v) => {
            let t = trimmed(v.as_str());
            if t.as_str().is_empty() {
                None
            } else {
                Some(t)
            }
        },
        None => None,
    }
}

fn grow<V: Model>(rows: &mut Vec<StrMap<V>>, n: usize)
    ensures
        final(rows).model() == grown(old(rows).model(), n as int),
        final(rows)@.len() >= n,
        final(rows)@.len() >= old(rows)@.len(),
{
    let ghost before = rows.model();
    if rows.len() >= n {
        return ;
    }
    while rows.len() < n
        invariant
            before.len() <= rows@.len() <= n,
            before.len() < n,
            forall|i: int| 0 <= i < rows@.len() ==> #[trigger] rows.model()[i] == row_entries(before, i),
        decreases n - rows.len(),
    {
        let ghost prev = rows.model();
        let empty: StrMap<V> = StrMap::new();
        rows.push(empty);
        assert forall|i: int| 0 <= i < rows@.len() implies #[trigger] rows.model()[i] == row_entries(
            before,
            i,
        ) by {
            if i < rows@.len() - 1 {
                assert(rows.model()[i] == prev[i]);
            }
        }
    }
    assert(rows.model() =~= resized(before, n as int));
}

fn resize<V: Model>(rows: &mut Vec<StrMap<V>>, n: usize)
    ensures
        final(rows).model() == resized(old(rows).model(), n as int),
        final(rows)@.len() == n,
{
    let ghost before = rows.model();
    grow(rows, n);
    let ghost mid = rows.model();
    rows.truncate(n);
    assert(rows.model() =~= resized(before, n as int)) by {
        assert forall|i: int| 0 <= i < n implies #[trigger] rows.model()[i] == row_entries(
            before,
            i,
        ) by {
            assert(rows.model()[i] == mid[i]);
        }
    }
}

fn gather<V: Model>(rows: &Vec<StrMap<V>>, order: &Vec<usize>) -> (r: Vec<StrMap<V>>)
    ensures
        r.model() == gathered(rows.model(), order@),
{
    let mut out: Vec<StrMap<V>> = Vec::new();
    let mut i: usize = 0;
    while i < order.len()
        invariant
            i <= order.len(),
            out@.len() == i,
            forall|k: int|
                0 <= k < i ==> #[trigger] out.model()[k] == row_entries(rows.model(), order@[k] as int),
        decreases order.len() - i,
    {
        let ghost prev = out.model();
        let idx = order[i];
        let row: StrMap<V> = if idx < rows.len() {
            rows[idx].copy_of()
        } else {
            StrMap::new()
        };
        out.push(row);
        assert forall|k: int| 0 <= k < i + 1 implies #[trigger] out.model()[k] == row_entries(
            rows.model(),
            order@[k] as int,
        ) by {
            if k < i {
                assert(out.model()[k] == prev[k]);
            }
        }
        i += 1;
    }
    assert(out.model() =~= gathered(rows.model(), order@));
    out
}

pub fn remove_from_rows<V: Model>(rows: &mut Vec<StrMap<V>>, column: &str)
    ensures
        final(rows)@.len() == old(rows)@.len(),
        forall|i: int|
            0 <= i < old(rows)@.len() ==> pairs_map(#[trigger] final(rows).model()[i]) == pairs_map(
                old(rows).model()[i],
            ).remove(column@),
{
    let mut i: usize = 0;
    while i < rows.len()
        invariant
            i <= rows.len(),
            rows@.len() == old(rows)@.len(),
            forall|a: int|
                0 <= a < i ==> pairs_map(#[trigger] rows.model()[a]) == pairs_map(
                    old(rows).model()[a],
                ).remove(column@),
            forall|a: int| i <= a < rows@.len() ==> #[trigger] rows.model()[a] == old(rows).model()[a],
        decreases rows.len() - i,
    {
        let ghost before = rows.model();
        assert(before[i as int] == rows@[i as int].pairs());
        rows[i].remove(column);
        assert(rows.model()[i as int] == rows@[i as int].pairs());
        assert forall|a: int| 0 <= a < rows@.len() && a != i implies #[trigger] rows.model()[a]
            == before[a] by {}
        i += 1;
    }
}

impl JSheetMeta {
    pub fn new() -> (r: Self)
        ensures
            r.model() == empty_meta(),
    {
        let r = JSheetMeta {
            columns: StrMap::new(),
            column_order: Vec::new(),
            row_key: None,
            comment_columns: StrSet::new(),
            comment_rows: Vec::new(),
            summaries: StrMap::new(),
            cell_formulas: Vec::new(),
            cell_styles: Vec::new(),
            conditional_formats: Vec::new(),
            validation: StrMap::new(),
            frozen_columns: None,
        };
        proof {
            assert(r.model().column_order =~= Seq::<Seq<char>>::empty());
            assert(r.model().comment_rows =~= Seq::<RowModel>::empty());
            assert(r.model().cell_formulas =~= Seq::<Seq<(Seq<char>, Seq<char>)>>::empty());
            assert(r.model().cell_styles =~= Seq::<Seq<(Seq<char>, StyleModel)>>::empty());
            assert(r.model().conditional_formats =~= Seq::<FormatModel>::empty());
        }
        r
    }

    pub fn set_column_order(&mut self, order: Vec<String>)
        ensures
            final(self).model() == (MetaModel { column_order: order.model(), ..old(self).model() }),
    {
        self.column_order = order;
    }

    pub fn row_key(&self) -> (r: Option<&String>)
        ensures
            r is Some <==> self.model().row_key is Some,
            r is Some ==> r->0@ == self.model().row_key->0,
    {
        self.row_key.as_ref()
    }

    pub fn set_row_key(&mut self, key: Option<String>)
        ensures
            final(self).model() == (MetaModel { row_key: key.model(), ..old(self).model() }),
    {
        self.row_key = key;
    }

    pub fn column_type(&self, column: &str) -> (r: Option<ColumnType>)
        ensures
            r == match entry_of(self.model().columns, column@) {
                Some(c) => Some(c.value_type),
                None => None,
            },
    {
        let n = self.columns.len();
        proof {
            lemma_pairs_map(self.columns.pairs());
        }
        match self.columns.get(column) {
            Some(c) => Some(c.value_type),
            None => None,
        }
    }

    /// Declares the type of a column, or withdraws the declaration.
    pub fn set_column_type(&mut self, column: &str, column_type: Option<ColumnType>)
        ensures
            final(self).model() == (MetaModel {
                columns: final(self).model().columns,
                ..old(self).model()
            }),
            sorted_keys(final(self).model().columns),
            pairs_map(final(self).model().columns) == match column_type {
                Some(t) => pairs_map(old(self).model().columns).insert(
                    column@,
                    ColumnConstraint { value_type: t },
                ),
                None => pairs_map(old(self).model().columns).remove(column@),
            },
    {
        match column_type {
            Some(t) => {
                self.columns.insert(column.to_owned(), ColumnConstraint { value_type: t });
            },
            None => {
                self.columns.remove(column);
            },
        }
    }

    /// Brings the per-row formulas and styles to `row_count` rows.
    pub fn resize_row_metadata(&mut self, row_count: usize)
        ensures
            final(self).model() == (MetaModel {
                cell_formulas: resized(old(self).model().cell_formulas, row_count as int),
                cell_styles: resized(old(self).model().cell_styles, row_count as int),
                ..old(self).model()
            }),
    {
        resize(&mut self.cell_formulas, row_count);
        resize(&mut self.cell_styles, row_count);
    }

    /// Takes the formulas and styles of the row at `row_index` out.
    pub fn remove_row_metadata(&mut self, row_index: usize)
        ensures
            final(self).model() == (MetaModel {
                cell_formulas: if row_index < old(self).model().cell_formulas.len() {
                    old(self).model().cell_formulas.remove(row_index as int)
                } else {
                    old(self).model().cell_formulas
                },
                cell_styles: if row_index < old(self).model().cell_styles.len() {
                    old(self).model().cell_styles.remove(row_index as int)
                } else {
                    old(self).model().cell_styles
                },
                ..old(self).model()
            }),
    {
        if row_index < self.cell_formulas.len() {
            self.cell_formulas.remove(row_index);
            assert(self.cell_formulas.model() =~= old(self).cell_formulas.model().remove(
                row_index as int,
            ));
        }
        if row_index < self.cell_styles.len() {
            self.cell_styles.remove(row_index);
            assert(self.cell_styles.model() =~= old(self).cell_styles.model().remove(
                row_index as int,
            ));
        }
    }

    /// Rebuilds the per-row formulas and styles in a new row order: row `i`
    /// takes what row `ordered_old_indices[i]` had.
    pub fn reorder_row_metadata(&mut self, ordered_old_indices: &Vec<usize>)
        ensures
            final(self).model() == (MetaModel {
                cell_formulas: gathered(old(self).model().cell_formulas, ordered_old_indices@),
                cell_styles: gathered(old(self).model().cell_styles, ordered_old_indices@),
                ..old(self).model()
            }),
    {
        let formulas = gather(&self.cell_formulas, ordered_old_indices);
        let styles = gather(&self.cell_styles, ordered_old_indices);
        self.cell_formulas = formulas;
        self.cell_styles = styles;
    }

    /// The formula attached to a cell.
    pub fn formula_for_cell(&self, row_index: usize, column: &str) -> (r: Option<&String>)
        ensures
            ref_model(r) == entry_at(self.model().cell_formulas, row_index as int, column@),
    {
        if row_index < self.cell_formulas.len() {
            let n = self.cell_formulas[row_index].len();
            proof {
                lemma_pairs_map(self.cell_formulas[row_index as int].pairs());
            }
            self.cell_formulas[row_index].get(column)
        } else {
            None
        }
    }

    /// Attaches a formula to a cell. The column name is trimmed and the
    /// formula normalized; the call is refused, and nothing changes, where the
    /// name is empty, the text is no formula, or the row cannot be counted.
    pub fn set_formula_for_cell(&mut self, row_index: usize, column: &str, formula: String) -> (r:
        bool)
        ensures
            r == (trim(column@).len() > 0 && is_formula(formula@) && row_index < usize::MAX),
            !r ==> final(self).model() == old(self).model(),
            r ==> final(self).model() == (MetaModel {
                cell_formulas: final(self).model().cell_formulas,
                cell_styles: grown(old(self).model().cell_styles, row_index + 1),
                ..old(self).model()
            }),
            r ==> final(self).model().cell_formulas.len() == grown(
                old(self).model().cell_formulas,
                row_index + 1,
            ).len(),
            r ==> forall|i: int|
                0 <= i < final(self).model().cell_formulas.len() && i != row_index
                    ==> #[trigger] final(self).model().cell_formulas[i] == row_entries(
                    old(self).model().cell_formulas,
                    i,
                ),
            r ==> pairs_map(final(self).model().cell_formulas[row_index as int]) == pairs_map(
                row_entries(old(self).model().cell_formulas, row_index as int),
            ).insert(trim(column@), normalized(formula@)->0),
            r ==> final(self).model() == with_formula(
                old(self).model(),
                row_index as int,
                trim(column@),
                normalized(formula@)->0,
            ),
    {
        let name = trimmed(column);
        if name.as_str().is_empty() {
            return false;
        }
        let body = match normalize_formula(formula.as_str()) {
            Some(body) => body,
            None => {
                return false;
            },
        };
        if parse_formula(body.as_str()).is_err() {
            return false;
        }
        if row_index == usize::MAX {
            return false;
        }
        grow(&mut self.cell_formulas, row_index + 1);
        grow(&mut self.cell_styles, row_index + 1);
        let ghost mid = self.cell_formulas.model();
        assert(mid[row_index as int] == self.cell_formulas@[row_index as int].pairs());
        self.cell_formulas[row_index].insert(name, body);
        assert(self.cell_formulas.model()[row_index as int] == self.cell_formulas@[row_index as int].pairs());
        assert forall|i: int|
            0 <= i < self.cell_formulas@.len() && i != row_index implies #[trigger] self.cell_formulas.model()[i]
            == row_entries(old(self).model().cell_formulas, i) by {
            assert(self.cell_formulas.model()[i] == mid[i]);
            assert(mid == grown(old(self).model().cell_formulas, row_index + 1));
            assert(mid[i] == row_entries(old(self).model().cell_formulas, i));
        }
        assert(mid[row_index as int] == row_entries(
            old(self).model().cell_formulas,
            row_index as int,
        ));
        assert(self.model().cell_formulas =~= with_formula(
            old(self).model(),
            row_index as int,
            trim(column@),
            normalized(formula@)->0,
        ).cell_formulas);
        true
    }

    /// Detaches the formula of a cell, if it has one.
    pub fn remove_formula_for_cell(&mut self, row_index: usize, column: &str)
        ensures
            final(self).model() == (MetaModel {
                cell_formulas: final(self).model().cell_formulas,
                ..old(self).model()
            }),
            final(self).model().cell_formulas.len() == old(self).model().cell_formulas.len(),
            forall|i: int|
                0 <= i < old(self).model().cell_formulas.len() && i != row_index
                    ==> #[trigger] final(self).model().cell_formulas[i] == old(
                    self,
                ).model().cell_formulas[i],
            row_index < old(self).model().cell_formulas.len() ==> pairs_map(
                final(self).model().cell_formulas[row_index as int],
            ) == pairs_map(old(self).model().cell_formulas[row_index as int]).remove(column@),
            final(self).model() == without_formula(old(self).model(), row_index as int, column@),
    {
        if row_index < self.cell_formulas.len() {
            let ghost before = self.cell_formulas.model();
            assert(before[row_index as int] == self.cell_formulas@[row_index as int].pairs());
            self.cell_formulas[row_index].remove(column);
            assert(self.cell_formulas.model()[row_index as int] == self.cell_formulas@[row_index as int].pairs());
            assert forall|i: int|
                0 <= i < self.cell_formulas@.len() && i != row_index implies #[trigger] self.cell_formulas.model()[i]
                == before[i] by {}
            assert(self.model().cell_formulas =~= without_formula(
                old(self).model(),
                row_index as int,
                column@,
            ).cell_formulas);
        }
    }

    /// The style set on a cell itself.
    pub fn cell_style(&self, row_index: usize, column: &str) -> (r: Option<&ColumnStyle>)
        ensures
            ref_model(r) == entry_at(self.model().cell_styles, row_index as int, column@),
    {
        if row_index < self.cell_styles.len() {
            let n = self.cell_styles[row_index].len();
            proof {
                lemma_pairs_map(self.cell_styles[row_index as int].pairs());
            }
            self.cell_styles[row_index].get(column)
        } else {
            None
        }
    }

    /// Sets the style of a cell from two colours, each trimmed; with neither
    /// left, the cell's style is cleared. Nothing changes for a row that
    /// cannot be counted.
    pub fn set_cell_style(
        &mut self,
        row_index: usize,
        column: &str,
        color: Option<String>,
        background: Option<String>,
    )
        ensures
            row_index == usize::MAX ==> final(self).model() == old(self).model(),
            row_index < usize::MAX ==> final(self).model() == (MetaModel {
                cell_formulas: grown(old(self).model().cell_formulas, row_index + 1),
                cell_styles: final(self).model().cell_styles,
                ..old(self).model()
            }),
            row_index < usize::MAX ==> final(self).model().cell_styles.len() == grown(
                old(self).model().cell_styles,
                row_index + 1,
            ).len(),
            row_index < usize::MAX ==> forall|i: int|
                0 <= i < final(self).model().cell_styles.len() && i != row_index
                    ==> #[trigger] final(self).model().cell_styles[i] == row_entries(
                    old(self).model().cell_styles,
                    i,
                ),
            row_index < usize::MAX ==> pairs_map(final(self).model().cell_styles[row_index as int])
                == {
                let before = pairs_map(row_entries(old(self).model().cell_styles, row_index as int));
                let c = normal_color(color.model());
                let b = normal_color(background.model());
                if c is None && b is None {
                    before.remove(column@)
                } else {
                    before.insert(column@, StyleModel { color: c, background: b })
                }
            },
    {
        if row_index == usize::MAX {
            return ;
        }
        let color = normalize_color(color);
        let background = normalize_color(background);
        grow(&mut self.cell_formulas, row_index + 1);
        grow(&mut self.cell_styles, row_index + 1);
        let ghost mid = self.cell_styles.model();
        assert(mid[row_index as int] == self.cell_styles@[row_index as int].pairs());
        if color.is_none() && background.is_none() {
            self.cell_styles[row_index].remove(column);
        } else {
            self.cell_styles[row_index].insert(column.to_owned(), ColumnStyle { color, background });
        }
        assert(self.cell_styles.model()[row_index as int] == self.cell_styles@[row_index as int].pairs());
        assert forall|i: int|
            0 <= i < self.cell_styles@.len() && i != row_index implies #[trigger] self.cell_styles.model()[i]
            == row_entries(old(self).model().cell_styles, i) by {
            assert(self.cell_styles.model()[i] == mid[i]);
            assert(mid == grown(old(self).model().cell_styles, row_index + 1));
            assert(mid[i] == row_entries(old(self).model().cell_styles, i));
        }
    }

    /// Clears the style set on a cell itself.
    pub fn clear_cell_style(&mut self, row_index: usize, column: &str)
        ensures
            final(self).model() == (MetaModel {
                cell_styles: final(self).model().cell_styles,
                ..old(self).model()
            }),
            final(self).model().cell_styles.len() == old(self).model().cell_styles.len(),
            forall|i: int|
                0 <= i < old(self).model().cell_styles.len() && i != row_index
                    ==> #[trigger] final(self).model().cell_styles[i] == old(
                    self,
                ).model().cell_styles[i],
            row_index < old(self).model().cell_styles.len() ==> pairs_map(
                final(self).model().cell_styles[row_index as int],
            ) == pairs_map(old(self).model().cell_styles[row_index as int]).remove(column@),
    {
        if row_index < self.cell_styles.len() {
            let ghost before = self.cell_styles.model();
            assert(before[row_index as int] == self.cell_styles@[row_index as int].pairs());
            self.cell_styles[row_index].remove(column);
            assert(self.cell_styles.model()[row_index as int] == self.cell_styles@[row_index as int].pairs());
            assert forall|i: int|
                0 <= i < self.cell_styles@.len() && i != row_index implies #[trigger] self.cell_styles.model()[i]
                == before[i] by {}
        }
    }

    pub fn is_comment_column(&self, column: &str) -> (r: bool)
        ensures
            r == self.model().comment_columns.contains(column@),
    {
        let n = self.comment_columns.len();
        self.comment_columns.contains(column)
    }

    pub fn summary_kind(&self, column: &str) -> (r: Option<SummaryKind>)
        ensures
            r == entry_of(self.model().summaries, column@),
    {
        let n = self.summaries.len();
        proof {
            lemma_pairs_map(self.summaries.pairs());
        }
        match self.summaries.get(column) {
            Some(k) => Some(*k),
            None => None,
        }
    }

    /// Declares the summary of a column, or withdraws it.
    pub fn set_summary_kind(&mut self, column: &str, summary_kind: Option<SummaryKind>)
        ensures
            final(self).model() == (MetaModel {
                summaries: final(self).model().summaries,
                ..old(self).model()
            }),
            sorted_keys(final(self).model().summaries),
            pairs_map(final(self).model().summaries) == match summary_kind {
                Some(kind) => pairs_map(old(self).model().summaries).insert(column@, kind),
                None => pairs_map(old(self).model().summaries).remove(column@),
            },
    {
        match summary_kind {
            Some(kind) => {
                self.summaries.insert(column.to_owned(), kind);
            },
            None => {
                self.summaries.remove(column);
            },
        }
    }

    /// The conditional formats in the order they were added.
    pub fn conditional_formats(&self) -> (r: &Vec<ConditionalFormat>)
        ensures
            r.model() == self.model().conditional_formats,
    {
        &self.conditional_formats
    }

    pub fn add_conditional_format(&mut self, format: ConditionalFormat)
        ensures
            final(self).model() == (MetaModel {
                conditional_formats: old(self).model().conditional_formats.push(format.model()),
                ..old(self).model()
            }),
    {
        self.conditional_formats.push(format);
        assert(self.conditional_formats.model() =~= old(self).conditional_formats.model().push(
            format.model(),
        ));
    }

    /// Takes the conditional format at `index` out; false where there is none.
    pub fn remove_conditional_format(&mut self, index: usize) -> (r: bool)
        ensures
            r == (index < old(self).model().conditional_formats.len()),
            r ==> final(self).model() == (MetaModel {
                conditional_formats: old(self).model().conditional_formats.remove(index as int),
                ..old(self).model()
            }),
            !r ==> final(self).model() == old(self).model(),
    {
        if index < self.conditional_formats.len() {
            self.conditional_formats.remove(index);
            assert(self.conditional_formats.model() =~= old(self).conditional_formats.model().remove(
                index as int,
            ));
            true
        } else {
            false
        }
    }

    pub fn validation_rule(&self, column: &str) -> (r: Option<&ValidationRule>)
        ensures
            ref_model(r) == entry_of(self.model().validation, column@),
    {
        let n = self.validation.len();
        proof {
            lemma_pairs_map(self.validation.pairs());
        }
        self.validation.get(column)
    }

    /// Sets the validation rule of a column. No rule, or a rule with neither
    /// bounds nor admitted texts, withdraws it.
    pub fn set_validation_rule(&mut self, column: &str, rule: Option<ValidationRule>)
        ensures
            final(self).model() == (MetaModel {
                validation: final(self).model().validation,
                ..old(self).model()
            }),
            sorted_keys(final(self).model().validation),
            pairs_map(final(self).model().validation) == match rule.model() {
                Some(m) => if m.min is None && m.max is None && m.enum_values is None {
                    pairs_map(old(self).model().validation).remove(column@)
                } else {
                    pairs_map(old(self).model().validation).insert(column@, m)
                },
                None => pairs_map(old(self).model().validation).remove(column@),
            },
    {
        match rule {
            Some(r) => {
                if r.min.is_none() && r.max.is_none() && r.enum_values.is_none() {
                    self.validation.remove(column);
                } else {
                    self.validation.insert(column.to_owned(), r);
                }
            },
            None => {
                self.validation.remove(column);
            },
        }
    }

    /// The number of columns frozen at the left; none where unset.
    pub fn frozen_columns(&self) -> (r: usize)
        ensures
            r == match self.model().frozen_columns {
                Some(n) => n,
                None => 0,
            },
    {
        match self.frozen_columns {
            Some(n) => n,
            None => 0,
        }
    }

    pub fn set_frozen_columns(&mut self, count: Option<usize>)
        ensures
            final(self).model() == (MetaModel { frozen_columns: count, ..old(self).model() }),
    {
        self.frozen_columns = count;
    }

    /// Whether a text, once normalized, is a formula.
    pub fn validate_formula(formula: &str) -> (r: bool)
        ensures
            r == is_formula(formula@),
    {
        validate_formula(formula)
    }

    /// Strips surrounding white space and one leading `=` from a formula text.
    pub fn normalize_formula(raw: &str) -> (r: Option<String>)
        ensures
            r.model() == normalized(raw@),
    {
        normalize_formula(raw)
    }
}

impl Default for JSheetMeta {
    fn default() -> (r: Self)
        ensures
            r.model() == empty_meta(),
    {
        JSheetMeta::new()
    }
}

} // verus!
