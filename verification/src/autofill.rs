//! Filling cells by dragging a selection out: the source rectangle repeats
//! over the cells that the drag covers, formulas go along as they are, and a
//! single number counts up or down along its row or column.

use vstd::prelude::*;
use vstd::arithmetic::div_mod::{lemma_fundamental_div_mod, lemma_fundamental_div_mod_converse};
use crate::jsheet::entry_at;
use crate::model::Model;
use crate::number::{sum_of, Number, SCALE};
use crate::selection::{
    autofill_expanded_range, expanded_range, stop_of, CellPoint, CellRange,
};
use crate::table_state::{
    state_cell, CellEdit, CellEditKind, EditKindModel, EditModel, StateModel, TableState,
};
use crate::value::{Value, ValueModel};

verus! {

broadcast use vstd::std_specs::vec::group_vec_axioms;

/// The edits that a fill comes to, and whether any of them sets a formula.
#[derive(Debug, PartialEq)]
pub struct AutoFillPlan {
    pub edits: Vec<CellEdit>,
    pub touches_formula: bool,
}

/// The line of a source that spans `start..=end` which repeats at `line`:
/// the source is laid end to end in both directions.
pub open spec fn source_line(line: int, start: int, end: int) -> int {
    start + (line - start) % (end - start + 1)
}

/// The line of the source `start..=end` that repeats at `line`.
pub fn wrap_index(line: usize, start: usize, end: usize) -> (r: usize)
    requires
        start <= end,
    ensures
        r == source_line(line as int, start as int, end as int),
        start <= r <= end,
{
    let width: usize = end - start;
    let ghost span: int = width + 1;
    if line >= start {
        let ahead: usize = line - start;
        if ahead <= width {
            proof {
                lemma_fundamental_div_mod_converse(ahead as int, span, 0, ahead as int);
            }
            line
        } else {
            let rest: usize = ahead % (width + 1);
            start + rest
        }
    } else {
        let back: usize = start - line;
        if back <= width {
            proof {
                lemma_fundamental_div_mod_converse(-(back as int), span, -1, span - back);
            }
            end - (back - 1)
        } else {
            let rest: usize = back % (width + 1);
            proof {
                let q = (back as int) / span;
                lemma_fundamental_div_mod(back as int, span);
                assert(back == span * q + rest);
                if rest == 0 {
                    assert(-(back as int) == (-q) * span + 0) by (nonlinear_arith)
                        requires
                            back == span * q + rest,
                            rest == 0,
                    ;
                    lemma_fundamental_div_mod_converse(-(back as int), span, -q, 0);
                } else {
                    assert(-(back as int) == (-q - 1) * span + (span - rest)) by (nonlinear_arith)
                        requires
                            back == span * q + rest,
                    ;
                    lemma_fundamental_div_mod_converse(
                        -(back as int),
                        span,
                        -q - 1,
                        span - rest,
                    );
                }
            }
            if rest == 0 {
                start
            } else {
                end - (rest - 1)
            }
        }
    }
}

/// By how much a single source cell counts on at a target: the distance
/// along the source's column, or along its row. None for a source of more
/// than one cell, for the source itself, and for a target off both lines.
pub open spec fn step_for(single_source: bool, source: CellRange, target: CellPoint) -> Option<
    int,
> {
    if !single_source {
        None
    } else if target.column == source.column_start() && target.row != source.row_start() {
        Some(target.row - source.row_start())
    } else if target.row == source.row_start() && target.column != source.column_start() {
        Some(target.column - source.column_start())
    } else {
        None
    }
}

fn distance(to: usize, from: usize) -> (r: Number)
    ensures
        r.model() == (to - from) * SCALE,
{
    if to >= from {
        Number::from_u64((to - from) as u64)
    } else {
        Number::from_u64((from - to) as u64).negated()
    }
}

/// By how much a single source cell counts on at a target, as a number.
pub fn increment_delta_for_target(
    single_source: bool,
    source_range: CellRange,
    target_point: CellPoint,
) -> (r: Option<Number>)
    ensures
        r.model() == match step_for(single_source, source_range, target_point) {
            Some(d) => Some(d * SCALE),
            None => None,
        },
{
    if !single_source {
        return None;
    }
    let (row_start, _, column_start, _) = source_range.bounds();
    if target_point.column == column_start && target_point.row != row_start {
        return Some(distance(target_point.row, row_start));
    }
    if target_point.row == row_start && target_point.column != column_start {
        return Some(distance(target_point.column, column_start));
    }
    None
}

/// A number moved on by `delta` units; none for what is no number and where
/// the sum is none.
pub open spec fn incremented(v: ValueModel, delta: int) -> Option<ValueModel> {
    match v {
        ValueModel::Number(u) => match sum_of(u, delta) {
            Some(t) => Some(ValueModel::Number(t)),
            None => None,
        },
        _ => None,
    }
}

/// A number moved on by `delta`.
pub fn increment_numeric_value(value: &Value, delta: &Number) -> (r: Option<Value>)
    ensures
        r.model() == incremented(value.model(), delta.model()),
{
    match value {
        Value::Number(n) => match n.plus(delta) {
            Some(t) => Some(Value::Number(t)),
            None => None,
        },
        _ => None,
    }
}

/// The value that goes into a target: the source's, counted on where there
/// is a step and the value takes it.
pub open spec fn filled_value(v: ValueModel, step: Option<int>) -> ValueModel {
    match step {
        Some(d) => match incremented(v, d * SCALE) {
            Some(w) => w,
            None => v,
        },
        None => v,
    }
}

/// The edit that fills the grid cell at `row`, `col`, if any. A cell of the
/// source is left alone. The cell takes after the source cell that repeats
/// there: its formula where it has one, else its value, and nothing where it
/// has neither or lies off the grid.
pub open spec fn fill_edit(
    s: StateModel,
    columns: Seq<Seq<char>>,
    visible: Seq<usize>,
    source: CellRange,
    row: int,
    col: int,
) -> Option<EditModel> {
    let point = CellPoint { row: row as usize, column: col as usize };
    let from_row = source_line(row, source.row_start() as int, source.row_end() as int);
    let from_col = source_line(col, source.column_start() as int, source.column_end() as int);
    if source.holds(point) || from_row >= visible.len() || from_col >= columns.len() {
        None
    } else {
        let data_row = visible[from_row];
        let name = columns[from_col];
        let single = source.row_start() == source.row_end() && source.column_start()
            == source.column_end();
        match entry_at(s.meta.cell_formulas, data_row as int, name) {
            Some(f) => Some(
                EditModel {
                    row_index: visible[row],
                    column: columns[col],
                    kind: EditKindModel::Formula(f),
                },
            ),
            None => match state_cell(s, data_row as int, name) {
                Some(v) => Some(
                    EditModel {
                        row_index: visible[row],
                        column: columns[col],
                        kind: EditKindModel::Value(
                            filled_value(v, step_for(single, source, point)),
                        ),
                    },
                ),
                None => None,
            },
        }
    }
}

/// The edits that fill one grid row under the displayed columns `from..to`.
pub open spec fn fill_row(
    s: StateModel,
    columns: Seq<Seq<char>>,
    visible: Seq<usize>,
    source: CellRange,
    row: int,
    from: int,
    to: int,
) -> Seq<EditModel>
    decreases to - from,
{
    if to <= from || to > columns.len() || from < 0 {
        Seq::empty()
    } else {
        let head = fill_row(s, columns, visible, source, row, from, to - 1);
        match fill_edit(s, columns, visible, source, row, to - 1) {
            Some(e) => head.push(e),
            None => head,
        }
    }
}

/// The edits that fill the grid rows `row_from..row_to` under the displayed
/// columns `from..to`, row by row.
pub open spec fn fill_rows(
    s: StateModel,
    columns: Seq<Seq<char>>,
    visible: Seq<usize>,
    source: CellRange,
    row_from: int,
    row_to: int,
    from: int,
    to: int,
) -> Seq<EditModel>
    decreases row_to - row_from,
{
    if row_to <= row_from || row_to > visible.len() || row_from < 0 {
        Seq::empty()
    } else {
        fill_rows(s, columns, visible, source, row_from, row_to - 1, from, to) + fill_row(
            s,
            columns,
            visible,
            source,
            row_to - 1,
            from,
            to,
        )
    }
}

/// The edits of a drag from `source` to `target`: one for each cell of the
/// covered rectangle that lies on the grid and gets something, row by row.
/// None while the source or the target is missing.
pub open spec fn fill_edits(
    s: StateModel,
    columns: Seq<Seq<char>>,
    visible: Seq<usize>,
    source: Option<CellRange>,
    target: Option<CellPoint>,
) -> Seq<EditModel> {
    match expanded_range(source, target) {
        Some(full) => fill_rows(
            s,
            columns,
            visible,
            source->0,
            full.row_start() as int,
            stop_of(full.row_end(), visible.len()),
            full.column_start() as int,
            stop_of(full.column_end(), columns.len()),
        ),
        None => Seq::empty(),
    }
}

/// Whether one of the edits sets a formula.
pub open spec fn sets_formula(edits: Seq<EditModel>) -> bool {
    exists|i: int| 0 <= i < edits.len() && (#[trigger] edits[i]).kind is Formula
}

fn stop(end: usize, len: usize) -> (r: usize)
    ensures
        r == stop_of(end, len as nat),
        r <= len,
{
    if end < len {
        end + 1
    } else {
        len
    }
}

/// The edit that fills the grid cell at `row`, `col`, which lies on the grid.
fn edit_for(
    snapshot: &TableState,
    columns: &Vec<String>,
    visible_rows: &Vec<usize>,
    source_range: CellRange,
    row: usize,
    col: usize,
) -> (r: Option<CellEdit>)
    requires
        row < visible_rows.len(),
        col < columns.len(),
    ensures
        r.model() == fill_edit(
            snapshot.model(),
            columns.model(),
            visible_rows@,
            source_range,
            row as int,
            col as int,
        ),
{
    let target_point = CellPoint { row, column: col };
    if source_range.contains(target_point) {
        return None;
    }
    let (row_start, row_end, column_start, column_end) = source_range.bounds();
    let from_row = wrap_index(row, row_start, row_end);
    let from_col = wrap_index(col, column_start, column_end);
    if from_row >= visible_rows.len() || from_col >= columns.len() {
        return None;
    }
    let data_row = visible_rows[from_row];
    let name = &columns[from_col];
    assert(name@ == columns.model()[from_col as int]);
    assert(columns[col as int]@ == columns.model()[col as int]);
    match snapshot.cell_formula(data_row, name.as_str()) {
        Some(formula) => {
            return Some(
                CellEdit {
                    row_index: visible_rows[row],
                    column: columns[col].clone(),
                    kind: CellEditKind::Formula(formula),
                },
            );
        },
        None => {},
    }
    let value = match snapshot.cell_value(data_row, name.as_str()) {
        Some(value) => value,
        None => {
            return None;
        },
    };
    let single = row_start == row_end && column_start == column_end;
    let filled = match increment_delta_for_target(single, source_range, target_point) {
        Some(delta) => match increment_numeric_value(&value, &delta) {
            Some(next) => next,
            None => value,
        },
        None => value,
    };
    Some(
        CellEdit {
            row_index: visible_rows[row],
            column: columns[col].clone(),
            kind: CellEditKind::Value(filled),
        },
    )
}

/// The edits that fill the cells which a drag from `source` to `target`
/// covers, given the displayed columns and the rows in view.
pub fn build_autofill_plan(
    snapshot: &TableState,
    columns: &Vec<String>,
    visible_rows: &Vec<usize>,
    source: Option<CellRange>,
    target: Option<CellPoint>,
) -> (plan: AutoFillPlan)
    ensures
        plan.edits.model() == fill_edits(
            snapshot.model(),
            columns.model(),
            visible_rows@,
            source,
            target,
        ),
        plan.touches_formula == sets_formula(plan.edits.model()),
{
    let mut edits: Vec<CellEdit> = Vec::new();
    let mut touches_formula = false;
    assert(edits.model() =~= Seq::<EditModel>::empty());
    let source_range = match source {
        Some(range) => range,
        None => {
            return AutoFillPlan { edits, touches_formula };
        },
    };
    let full = match autofill_expanded_range(source, target) {
        Some(range) => range,
        None => {
            return AutoFillPlan { edits, touches_formula };
        },
    };
    let (row_start, row_end, column_start, column_end) = full.bounds();
    let row_stop = stop(row_end, visible_rows.len());
    let column_stop = stop(column_end, columns.len());
    let ghost s = snapshot.model();
    let ghost names = columns.model();
    let mut display_row: usize = row_start;
    while display_row < row_stop
        invariant
            row_start <= display_row,
            display_row == row_start || display_row <= row_stop,
            row_stop <= visible_rows.len(),
            column_stop <= columns.len(),
            s == snapshot.model(),
            names == columns.model(),
            edits.model() == fill_rows(
                s,
                names,
                visible_rows@,
                source_range,
                row_start as int,
                display_row as int,
                column_start as int,
                column_stop as int,
            ),
            touches_formula == sets_formula(edits.model()),
        decreases row_stop - display_row,
    {
        let ghost before = edits.model();
        let mut display_col: usize = column_start;
        assert(before + Seq::<EditModel>::empty() =~= before);
        while display_col < column_stop
            invariant
                column_start <= display_col,
                display_col == column_start || display_col <= column_stop,
                display_row < visible_rows.len(),
                column_stop <= columns.len(),
                s == snapshot.model(),
                names == columns.model(),
                edits.model() == before + fill_row(
                    s,
                    names,
                    visible_rows@,
                    source_range,
                    display_row as int,
                    column_start as int,
                    display_col as int,
                ),
                touches_formula == sets_formula(edits.model()),
            decreases column_stop - display_col,
        {
            match edit_for(snapshot, columns, visible_rows, source_range, display_row, display_col) {
                Some(edit) => {
                    let ghost was = edits.model();
                    let ghost row = fill_row(
                        s,
                        names,
                        visible_rows@,
                        source_range,
                        display_row as int,
                        column_start as int,
                        display_col as int,
                    );
                    let is_formula = match &edit.kind {
                        CellEditKind::Formula(_) => true,
                        CellEditKind::Value(_) => false,
                    };
                    edits.push(edit);
                    proof {
                        assert(edits.model() =~= was.push(edit.model()));
                        assert((before + row).push(edit.model()) =~= before + row.push(
                            edit.model(),
                        ));
                        if is_formula {
                            assert(edits.model()[was.len() as int].kind is Formula);
                        } else if sets_formula(edits.model()) {
                            let i = choose|i: int|
                                0 <= i < edits.model().len() && (
                                #[trigger] edits.model()[i]).kind is Formula;
                            assert(was[i].kind is Formula);
                        }
                        if touches_formula {
                            let i = choose|i: int|
                                0 <= i < was.len() && (#[trigger] was[i]).kind is Formula;
                            assert(edits.model()[i].kind is Formula);
                        }
                    }
                    if is_formula {
                        touches_formula = true;
                    }
                },
                None => {},
            }
            display_col += 1;
        }
        proof {
            if column_stop <= column_start {
                let here = fill_row(
                    s,
                    names,
                    visible_rows@,
                    source_range,
                    display_row as int,
                    column_start as int,
                    display_col as int,
                );
                let there = fill_row(
                    s,
                    names,
                    visible_rows@,
                    source_range,
                    display_row as int,
                    column_start as int,
                    column_stop as int,
                );
                assert(here.len() == 0);
                assert(there.len() == 0);
                assert(here =~= there);
            }
        }
        display_row += 1;
    }
    proof {
        if row_stop <= row_start {
            let here = fill_rows(
                s,
                names,
                visible_rows@,
                source_range,
                row_start as int,
                display_row as int,
                column_start as int,
                column_stop as int,
            );
            let there = fill_rows(
                s,
                names,
                visible_rows@,
                source_range,
                row_start as int,
                row_stop as int,
                column_start as int,
                column_stop as int,
            );
            assert(here.len() == 0);
            assert(there.len() == 0);
            assert(here =~= there);
        }
    }
    AutoFillPlan { edits, touches_formula }
}

} // verus!
