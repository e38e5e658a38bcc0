//! What the grid does to the table: opening a cell for editing, committing
//! what was typed, clearing the selected cells, and ending a fill drag.
//!
//! Each step is a function of the table state and plain values, so that the
//! surface around it only has to show the result.

use vstd::prelude::*;
use crate::autofill::{build_autofill_plan, fill_edits, sets_formula};
use crate::coercion::coerced_for_column;
use crate::formula::normalized;
use crate::jsheet::{entry_at, with_formula, without_formula};
use crate::model::Model;
use crate::selection::{
    autofill_expanded_range, expanded_range, range_cells, range_targets, targets_model, CellPoint,
    CellRange, Target,
};
use crate::table_state::{
    edits_applied, formula_settable, mutated, state_cell, value_to_store, with_value, CellEdit,
    CellEditKind, EditKindModel, EditModel, StateModel, TableState,
};
use crate::text::{chars_of, text_of, trim, trimmed_chars};
use crate::value::{display_text, display_value, parsed_input, Value, ValueModel};

verus! {

broadcast use vstd::std_specs::vec::group_vec_axioms;

/// A cell that is open for editing, and what has been typed into it so far.
#[derive(Debug, PartialEq)]
pub struct EditingCell {
    pub row: usize,
    pub column: String,
    pub draft: String,
}

pub struct EditingModel {
    pub row: usize,
    pub column: Seq<char>,
    pub draft: Seq<char>,
}

impl EditingCell {
    pub open spec fn model(&self) -> EditingModel {
        EditingModel { row: self.row, column: self.column@, draft: self.draft@ }
    }
}

/// How committing a draft ended.
#[derive(Clone, Copy, Debug, PartialEq, Eq, Structural)]
pub enum CommitResult {
    /// The cell took the draft.
    Applied,
    /// The draft began with `=` and was refused as a formula.
    InvalidFormula,
    /// The draft was refused as a value.
    InvalidTypedValue,
}

/// What a cell shows when it is opened for editing: its formula behind `=`
/// where it has one, else its value as displayed, else nothing.
pub open spec fn draft_of(s: StateModel, row: usize, column: Seq<char>) -> Seq<char> {
    match entry_at(s.meta.cell_formulas, row as int, column) {
        Some(f) => seq!['='] + f,
        None => match state_cell(s, row as int, column) {
            Some(v) => display_text(v),
            None => Seq::<char>::empty(),
        },
    }
}

/// The cell that opens for editing: the table cell under the anchor of the
/// selection. None without a selection, and where the anchor lies off the
/// grid.
pub open spec fn edit_begun(
    s: StateModel,
    range: Option<CellRange>,
    columns: Seq<Seq<char>>,
    visible: Seq<usize>,
) -> Option<EditingModel> {
    match range {
        Some(r) => if r.anchor.row < visible.len() && r.anchor.column < columns.len() {
            let row = visible[r.anchor.row as int];
            let column = columns[r.anchor.column as int];
            Some(EditingModel { row, column, draft: draft_of(s, row, column) })
        } else {
            None
        },
        None => None,
    }
}

/// Opens the cell under the anchor of the selection for editing.
pub fn enter_edit_from_selection(
    state: &TableState,
    selected_range: Option<CellRange>,
    columns: &Vec<String>,
    visible_rows: &Vec<usize>,
) -> (r: Option<EditingCell>)
    ensures
        match r {
            Some(cell) => Some(cell.model()),
            None => None,
        } == edit_begun(state.model(), selected_range, columns.model(), visible_rows@),
{
    let range = match selected_range {
        Some(range) => range,
        None => {
            return None;
        },
    };
    let point = range.anchor;
    if point.row >= visible_rows.len() || point.column >= columns.len() {
        return None;
    }
    let data_row = visible_rows[point.row];
    let name = &columns[point.column];
    assert(name@ == columns.model()[point.column as int]);
    let draft = match state.cell_formula(data_row, name.as_str()) {
        Some(formula) => {
            let body = chars_of(formula.as_str());
            let mut out: Vec<char> = Vec::new();
            out.push('=');
            let mut i: usize = 0;
            while i < body.len()
                invariant
                    i <= body.len(),
                    out@ == seq!['='] + body@.take(i as int),
                decreases body.len() - i,
            {
                out.push(body[i]);
                assert(body@.take(i + 1) =~= body@.take(i as int).push(body@[i as int]));
                assert(out@ =~= seq!['='] + body@.take(i + 1));
                i += 1;
            }
            assert(body@.take(i as int) =~= body@);
            text_of(&out)
        },
        None => match state.cell_value(data_row, name.as_str()) {
            Some(value) => display_value(&value),
            None => String::new(),
        },
    };
    Some(EditingCell { row: data_row, column: name.clone(), draft })
}

/// The state after typed input went into a cell, where it went in: the
/// column takes the input as a value, and the cell did not hold it already.
pub open spec fn after_input(s: StateModel, row: usize, column: Seq<char>, input: Seq<char>) -> Option<
    StateModel,
> {
    match coerced_for_column(s.meta, column, parsed_input(input), Some(input)) {
        Some(v) => match value_to_store(s, row, column, v) {
            Some(c) => Some(with_value(s, row, column, c)),
            None => None,
        },
        None => None,
    }
}

/// Whether a draft is meant as a formula: trimmed, it begins with `=`.
pub open spec fn is_formula_draft(draft: Seq<char>) -> bool {
    trim(draft).len() > 0 && trim(draft)[0] == '='
}

/// What committing a draft comes to: how it ended, whether the stored
/// formulas changed, and the state after it.
///
/// A draft that begins with `=` is set as the cell's formula. Any other draft
/// is set as the cell's value, and a formula that the cell had is withdrawn.
/// A refused draft leaves the state as it was.
pub open spec fn committed(s: StateModel, e: EditingModel) -> (CommitResult, bool, StateModel) {
    if is_formula_draft(e.draft) {
        if formula_settable(s, e.row, e.column, trim(e.draft)) {
            (
                CommitResult::Applied,
                true,
                StateModel {
                    meta: with_formula(
                        s.meta,
                        e.row as int,
                        trim(e.column),
                        normalized(normalized(trim(e.draft))->0)->0,
                    ),
                    ..s
                },
            )
        } else {
            (CommitResult::InvalidFormula, false, s)
        }
    } else {
        match after_input(s, e.row, e.column, e.draft) {
            Some(n) => if entry_at(s.meta.cell_formulas, e.row as int, e.column) is Some {
                (
                    CommitResult::Applied,
                    true,
                    StateModel { meta: without_formula(n.meta, e.row as int, e.column), ..n },
                )
            } else {
                (CommitResult::Applied, false, n)
            },
            None => (CommitResult::InvalidTypedValue, false, s),
        }
    }
}

/// Commits what was typed into a cell. Returns how it ended and whether the
/// stored formulas changed.
pub fn commit_edit(state: &mut TableState, edit: &EditingCell) -> (r: (CommitResult, bool))
    ensures
        (r.0, r.1, final(state).model()) == committed(old(state).model(), edit.model()),
{
    let draft = trimmed_chars(edit.draft.as_str());
    if draft.len() > 0 && draft[0] == '=' {
        if state.set_cell_formula(edit.row, edit.column.as_str(), text_of(&draft)) {
            (CommitResult::Applied, true)
        } else {
            (CommitResult::InvalidFormula, false)
        }
    } else if state.cell_formula(edit.row, edit.column.as_str()).is_some() {
        if state.set_cell_from_input(edit.row, edit.column.as_str(), edit.draft.as_str()) {
            state.remove_cell_formula(edit.row, edit.column.as_str());
            (CommitResult::Applied, true)
        } else {
            (CommitResult::InvalidTypedValue, false)
        }
    } else if state.set_cell_from_input(edit.row, edit.column.as_str(), edit.draft.as_str()) {
        (CommitResult::Applied, false)
    } else {
        (CommitResult::InvalidTypedValue, false)
    }
}

/// What a batch of edits makes of a state, and how many of them changed
/// anything. A batch that changes nothing leaves the state as it was.
pub open spec fn batch_applied(s: StateModel, edits: Seq<EditModel>) -> (StateModel, nat) {
    let done = edits_applied(s.data, s.meta, edits, edits.len() as int);
    if done.2 == 0 {
        (s, 0)
    } else {
        (mutated(s, done.0, done.1, None), done.2)
    }
}

/// The edits that set each of some cells to null.
pub open spec fn clearing_edits(cells: Seq<Target>) -> Seq<EditModel> {
    Seq::new(
        cells.len(),
        |i: int|
            EditModel {
                row_index: cells[i].0,
                column: cells[i].1,
                kind: EditKindModel::Value(ValueModel::Null),
            },
    )
}

/// The edits that clear the cells a selection stands for.
pub open spec fn selection_cleared(
    range: Option<CellRange>,
    columns: Seq<Seq<char>>,
    visible: Seq<usize>,
) -> Seq<EditModel> {
    match range {
        Some(r) => clearing_edits(range_targets(r, columns, visible)),
        None => Seq::empty(),
    }
}

/// Sets the cells that the selection stands for to null, as one step of
/// history. Returns how many cells changed.
pub fn delete_selected_cells(
    state: &mut TableState,
    selected_range: Option<CellRange>,
    columns: &Vec<String>,
    visible_rows: &Vec<usize>,
) -> (changed: usize)
    ensures
        (final(state).model(), changed as nat) == batch_applied(
            old(state).model(),
            selection_cleared(selected_range, columns.model(), visible_rows@),
        ),
{
    let range = match selected_range {
        Some(range) => range,
        None => {
            return 0;
        },
    };
    let cells = range_cells(range, columns, visible_rows);
    let mut edits: Vec<CellEdit> = Vec::new();
    let mut i: usize = 0;
    while i < cells.len()
        invariant
            i <= cells.len(),
            edits@.len() == i,
            forall|k: int|
                0 <= k < i ==> (#[trigger] edits@[k]).model() == (EditModel {
                    row_index: cells@[k].0,
                    column: cells@[k].1@,
                    kind: EditKindModel::Value(ValueModel::Null),
                }),
        decreases cells.len() - i,
    {
        edits.push(
            CellEdit {
                row_index: cells[i].0,
                column: cells[i].1.clone(),
                kind: CellEditKind::Value(Value::Null),
            },
        );
        i += 1;
    }
    assert(edits.model() =~= clearing_edits(targets_model(cells@)));
    state.apply_cell_edits(edits)
}

/// Ends a fill drag from `source` to `target`: the selection becomes the
/// rectangle that the drag covered, where there is one, and the table takes
/// the fill as one step of history. Returns how many cells changed, and
/// whether stored formulas are among what changed.
pub fn finish_autofill_drag(
    state: &mut TableState,
    selected_range: &mut Option<CellRange>,
    columns: &Vec<String>,
    visible_rows: &Vec<usize>,
    source: Option<CellRange>,
    target: Option<CellPoint>,
) -> (r: (usize, bool))
    ensures
        *final(selected_range) == match expanded_range(source, target) {
            Some(full) => Some(full),
            None => *old(selected_range),
        },
        (final(state).model(), r.0 as nat) == batch_applied(
            old(state).model(),
            fill_edits(old(state).model(), columns.model(), visible_rows@, source, target),
        ),
        r.1 == (r.0 > 0 && sets_formula(
            fill_edits(old(state).model(), columns.model(), visible_rows@, source, target),
        )),
{
    match autofill_expanded_range(source, target) {
        Some(full) => {
            *selected_range = Some(full);
        },
        None => {},
    }
    let plan = build_autofill_plan(state, columns, visible_rows, source, target);
    let touches_formula = plan.touches_formula;
    let changed = state.apply_cell_edits(plan.edits);
    (changed, changed > 0 && touches_formula)
}

} // verus!
