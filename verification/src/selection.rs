//! Cells and rectangles of the grid as it is shown: what is selected, where a
//! selection moves, and which cells of the table it stands for.
//!
//! A point names a cell by its place on the screen: the how-manyeth row in
//! view, the how-manyeth displayed column. The table itself is addressed by
//! row index and column name; the functions here lead from one to the other.

use vstd::prelude::*;
use crate::model::Model;

verus! {

broadcast use vstd::std_specs::vec::group_vec_axioms;

/// A cell of the grid, by displayed row and displayed column.
#[derive(Clone, Copy, Debug, PartialEq, Eq, Structural)]
pub struct CellPoint {
    pub row: usize,
    pub column: usize,
}

/// A rectangle of cells, held as the cell where the selection began and the
/// cell it was drawn to. Either may be any corner.
#[derive(Clone, Copy, Debug, PartialEq, Eq, Structural)]
pub struct CellRange {
    pub anchor: CellPoint,
    pub focus: CellPoint,
}

/// The smaller of two indices.
pub open spec fn lesser(a: usize, b: usize) -> usize {
    if a <= b {
        a
    } else {
        b
    }
}

/// The larger of two indices.
pub open spec fn larger(a: usize, b: usize) -> usize {
    if a >= b {
        a
    } else {
        b
    }
}

fn lesser_of(a: usize, b: usize) -> (r: usize)
    ensures
        r == lesser(a, b),
{
    if a <= b {
        a
    } else {
        b
    }
}

fn larger_of(a: usize, b: usize) -> (r: usize)
    ensures
        r == larger(a, b),
{
    if a >= b {
        a
    } else {
        b
    }
}

impl CellRange {
    /// The first row of the rectangle.
    pub open spec fn row_start(self) -> usize {
        lesser(self.anchor.row, self.focus.row)
    }

    /// The last row of the rectangle.
    pub open spec fn row_end(self) -> usize {
        larger(self.anchor.row, self.focus.row)
    }

    /// The first column of the rectangle.
    pub open spec fn column_start(self) -> usize {
        lesser(self.anchor.column, self.focus.column)
    }

    /// The last column of the rectangle.
    pub open spec fn column_end(self) -> usize {
        larger(self.anchor.column, self.focus.column)
    }

    /// Whether the cell lies in the rectangle, edges included.
    pub open spec fn holds(self, point: CellPoint) -> bool {
        &&& self.row_start() <= point.row <= self.row_end()
        &&& self.column_start() <= point.column <= self.column_end()
    }

    /// The rectangle of one cell.
    pub fn single(point: CellPoint) -> (r: Self)
        ensures
            r == (CellRange { anchor: point, focus: point }),
    {
        CellRange { anchor: point, focus: point }
    }

    /// First row, last row, first column, last column.
    pub fn bounds(&self) -> (r: (usize, usize, usize, usize))
        ensures
            r == (self.row_start(), self.row_end(), self.column_start(), self.column_end()),
    {
        (
            lesser_of(self.anchor.row, self.focus.row),
            larger_of(self.anchor.row, self.focus.row),
            lesser_of(self.anchor.column, self.focus.column),
            larger_of(self.anchor.column, self.focus.column),
        )
    }

    /// Whether the cell lies in the rectangle.
    pub fn contains(&self, point: CellPoint) -> (r: bool)
        ensures
            r == self.holds(point),
    {
        let (row_start, row_end, column_start, column_end) = self.bounds();
        point.row >= row_start && point.row <= row_end && point.column >= column_start
            && point.column <= column_end
    }
}

/// Whether a selection is there and holds the cell.
pub fn range_contains_cell(selected_range: Option<CellRange>, row: usize, column: usize) -> (r:
    bool)
    ensures
        r == match selected_range {
            Some(range) => range.holds(CellPoint { row, column }),
            None => false,
        },
{
    match selected_range {
        Some(range) => range.contains(CellPoint { row, column }),
        None => false,
    }
}

/// Whether the selection is this one cell and no more.
pub fn is_single_selected_cell(selected_range: Option<CellRange>, row: usize, column: usize) -> (r:
    bool)
    ensures
        r == (selected_range == Some(CellRange::single_of(CellPoint { row, column }))),
{
    match selected_range {
        Some(range) => range.anchor.row == range.focus.row && range.anchor.column
            == range.focus.column && range.anchor.row == row && range.anchor.column == column,
        None => false,
    }
}

impl CellRange {
    /// The rectangle of one cell, as a value to speak of.
    pub open spec fn single_of(point: CellPoint) -> CellRange {
        CellRange { anchor: point, focus: point }
    }
}

/// Whether the cell is the last of the selection, at its lower right: the
/// cell that carries the handle by which a selection is dragged out.
pub fn is_autofill_handle_cell(selected_range: Option<CellRange>, row: usize, column: usize) -> (r:
    bool)
    ensures
        r == match selected_range {
            Some(range) => row == range.row_end() && column == range.column_end(),
            None => false,
        },
{
    match selected_range {
        Some(range) => {
            let (_, row_end, _, column_end) = range.bounds();
            row == row_end && column == column_end
        },
        None => false,
    }
}

/// The least rectangle that holds a rectangle and a cell.
pub open spec fn stretched(source: CellRange, target: CellPoint) -> CellRange {
    CellRange {
        anchor: CellPoint {
            row: lesser(source.row_start(), target.row),
            column: lesser(source.column_start(), target.column),
        },
        focus: CellPoint {
            row: larger(source.row_end(), target.row),
            column: larger(source.column_end(), target.column),
        },
    }
}

/// The rectangle that a drag from `source` to `target` covers; none while
/// either is missing.
pub open spec fn expanded_range(source: Option<CellRange>, target: Option<CellPoint>) -> Option<
    CellRange,
> {
    match (source, target) {
        (Some(s), Some(t)) => Some(stretched(s, t)),
        _ => None,
    }
}

/// The rectangle that a drag from `source` to `target` covers: the least one
/// that holds both, anchored at its upper left.
pub fn autofill_expanded_range(source: Option<CellRange>, target: Option<CellPoint>) -> (r: Option<
    CellRange,
>)
    ensures
        r == expanded_range(source, target),
{
    let source_range = match source {
        Some(range) => range,
        None => {
            return None;
        },
    };
    let target_point = match target {
        Some(point) => point,
        None => {
            return None;
        },
    };
    let (row_start, row_end, column_start, column_end) = source_range.bounds();
    Some(
        CellRange {
            anchor: CellPoint {
                row: lesser_of(row_start, target_point.row),
                column: lesser_of(column_start, target_point.column),
            },
            focus: CellPoint {
                row: larger_of(row_end, target_point.row),
                column: larger_of(column_end, target_point.column),
            },
        },
    )
}

/// Whether the cell would be filled by the drag: covered by it and not part
/// of what is dragged.
pub fn autofill_preview_contains_cell(
    source: Option<CellRange>,
    target: Option<CellPoint>,
    row: usize,
    column: usize,
) -> (r: bool)
    ensures
        r == match expanded_range(source, target) {
            Some(expanded) => expanded.holds(CellPoint { row, column }) && !source->0.holds(
                CellPoint { row, column },
            ),
            None => false,
        },
{
    let point = CellPoint { row, column };
    let source_range = match source {
        Some(range) => range,
        None => {
            return false;
        },
    };
    match autofill_expanded_range(source, target) {
        Some(expanded) => expanded.contains(point) && !source_range.contains(point),
        None => false,
    }
}

/// Where an index stands after a step of `delta`, kept within `0..count`.
pub open spec fn stepped(from: usize, delta: isize, count: usize) -> int {
    let to = from + delta;
    if to < 0 {
        0
    } else if to > count - 1 {
        count - 1
    } else {
        to
    }
}

fn step(from: usize, delta: isize, count: usize) -> (r: usize)
    requires
        count > 0,
    ensures
        r == stepped(from, delta, count),
        r < count,
{
    if delta >= 0 {
        let room: usize = count - 1;
        if from >= room {
            room
        } else if delta as usize >= room - from {
            room
        } else {
            from + delta as usize
        }
    } else {
        let back: usize = if delta == isize::MIN {
            isize::MAX as usize + 1
        } else {
            (-delta) as usize
        };
        if back >= from {
            0
        } else if from - back > count - 1 {
            count - 1
        } else {
            from - back
        }
    }
}

/// What is selected: the rectangle on the grid, and the row of the table and
/// the column that lead it.
#[derive(Debug, PartialEq)]
pub struct Selection {
    pub range: Option<CellRange>,
    pub row: Option<usize>,
    pub column: Option<String>,
}

pub struct SelectionModel {
    pub range: Option<CellRange>,
    pub row: Option<usize>,
    pub column: Option<Seq<char>>,
}

impl Selection {
    pub open spec fn model(&self) -> SelectionModel {
        SelectionModel { range: self.range, row: self.row, column: self.column.model() }
    }

    /// Nothing selected.
    pub fn new() -> (r: Self)
        ensures
            r.model() == (SelectionModel { range: None, row: None, column: None }),
    {
        Selection { range: None, row: None, column: None }
    }
}

/// The cell that a move starts from: the anchor of the selection, the first
/// cell where nothing is selected.
pub open spec fn origin(range: Option<CellRange>) -> CellPoint {
    match range {
        Some(r) => r.anchor,
        None => CellPoint { row: 0, column: 0 },
    }
}

/// The selection after a move by `dr` rows and `dc` columns on a grid of
/// `row_count` rows and `col_count` columns. The new selection is one cell.
/// The leading row and column follow where the lists name them and stay as
/// they were where they do not.
pub open spec fn moved(
    sel: SelectionModel,
    dr: isize,
    dc: isize,
    row_count: usize,
    col_count: usize,
    columns: Seq<Seq<char>>,
    visible: Seq<usize>,
) -> SelectionModel {
    let row = stepped(origin(sel.range).row, dr, row_count);
    let column = stepped(origin(sel.range).column, dc, col_count);
    SelectionModel {
        range: Some(
            CellRange::single_of(CellPoint { row: row as usize, column: column as usize }),
        ),
        row: if row < visible.len() {
            Some(visible[row])
        } else {
            sel.row
        },
        column: if column < columns.len() {
            Some(columns[column])
        } else {
            sel.column
        },
    }
}

/// Moves the selection by `dr` rows and `dc` columns, stopping at the edges
/// of the grid.
pub fn move_selection(
    selection: &mut Selection,
    dr: isize,
    dc: isize,
    row_count: usize,
    col_count: usize,
    columns: &Vec<String>,
    visible_rows: &Vec<usize>,
)
    requires
        row_count > 0,
        col_count > 0,
    ensures
        final(selection).model() == moved(
            old(selection).model(),
            dr,
            dc,
            row_count,
            col_count,
            columns.model(),
            visible_rows@,
        ),
{
    let current = match selection.range {
        Some(range) => range.anchor,
        None => CellPoint { row: 0, column: 0 },
    };
    let new_row = step(current.row, dr, row_count);
    let new_col = step(current.column, dc, col_count);
    selection.range = Some(CellRange::single(CellPoint { row: new_row, column: new_col }));
    if new_col < columns.len() {
        selection.column = Some(columns[new_col].clone());
    }
    if new_row < visible_rows.len() {
        selection.row = Some(visible_rows[new_row]);
    }
}

/// Where a row or column range stops on a grid of `len` lines: one past its
/// last line, or the end of the grid where that comes first.
pub open spec fn stop_of(end: usize, len: nat) -> int {
    if end < len {
        end + 1
    } else {
        len as int
    }
}

/// A cell of the table: its row index and its column's name.
pub type Target = (usize, Seq<char>);

/// The cells of one row of the table under the displayed columns `from..to`.
pub open spec fn row_targets(data_row: usize, columns: Seq<Seq<char>>, from: int, to: int) -> Seq<
    Target,
>
    decreases to - from,
{
    if to <= from || to > columns.len() || from < 0 {
        Seq::empty()
    } else {
        row_targets(data_row, columns, from, to - 1).push((data_row, columns[to - 1]))
    }
}

/// The cells of the table under the displayed rows `row_from..row_to` and
/// the displayed columns `from..to`, row by row.
pub open spec fn grid_targets(
    visible: Seq<usize>,
    columns: Seq<Seq<char>>,
    row_from: int,
    row_to: int,
    from: int,
    to: int,
) -> Seq<Target>
    decreases row_to - row_from,
{
    if row_to <= row_from || row_to > visible.len() || row_from < 0 {
        Seq::empty()
    } else {
        grid_targets(visible, columns, row_from, row_to - 1, from, to) + row_targets(
            visible[row_to - 1],
            columns,
            from,
            to,
        )
    }
}

/// The cells of the table that a rectangle stands for, row by row. What of
/// it lies beyond the rows in view or the displayed columns stands for
/// nothing.
pub open spec fn range_targets(range: CellRange, columns: Seq<Seq<char>>, visible: Seq<usize>) -> Seq<
    Target,
> {
    grid_targets(
        visible,
        columns,
        range.row_start() as int,
        stop_of(range.row_end(), visible.len()),
        range.column_start() as int,
        stop_of(range.column_end(), columns.len()),
    )
}

/// The cells that an action on the selection applies to: those the selection
/// stands for, or the one given cell where there is no selection or it stands
/// for none.
pub open spec fn selected_targets(
    range: Option<CellRange>,
    columns: Seq<Seq<char>>,
    visible: Seq<usize>,
    fallback_row: usize,
    fallback_column: Seq<char>,
) -> Seq<Target> {
    match range {
        Some(r) => if range_targets(r, columns, visible).len() == 0 {
            seq![(fallback_row, fallback_column)]
        } else {
            range_targets(r, columns, visible)
        },
        None => seq![(fallback_row, fallback_column)],
    }
}

/// The cells of a list, each with its column's name as text.
pub open spec fn targets_model(cells: Seq<(usize, String)>) -> Seq<Target> {
    Seq::new(cells.len(), |i: int| (cells[i].0, cells[i].1@))
}

fn stop(end: usize, len: usize) -> (r: usize)
    ensures
        r == stop_of(end, len as nat),
        r <= len,
{
    if end < len {
        end + 1
    } else {
        len
    }
}

/// The cells of the table that a rectangle stands for, row by row.
pub fn range_cells(range: CellRange, columns: &Vec<String>, visible_rows: &Vec<usize>) -> (r: Vec<
    (usize, String),
>)
    ensures
        targets_model(r@) == range_targets(range, columns.model(), visible_rows@),
{
    let (row_start, row_end, column_start, column_end) = range.bounds();
    let row_stop = stop(row_end, visible_rows.len());
    let column_stop = stop(column_end, columns.len());
    let ghost names = columns.model();
    let mut targets: Vec<(usize, String)> = Vec::new();
    let mut display_row: usize = row_start;
    assert(targets_model(targets@) =~= Seq::<Target>::empty());
    while display_row < row_stop
        invariant
            row_start <= display_row,
            display_row == row_start || display_row <= row_stop,
            row_stop <= visible_rows.len(),
            column_stop <= columns.len(),
            names == columns.model(),
            targets_model(targets@) == grid_targets(
                visible_rows@,
                names,
                row_start as int,
                display_row as int,
                column_start as int,
                column_stop as int,
            ),
        decreases row_stop - display_row,
    {
        let data_row = visible_rows[display_row];
        let ghost before = targets_model(targets@);
        let mut column_index: usize = column_start;
        assert(before + Seq::<Target>::empty() =~= before);
        while column_index < column_stop
            invariant
                column_start <= column_index,
                column_index == column_start || column_index <= column_stop,
                column_stop <= columns.len(),
                names == columns.model(),
                targets_model(targets@) == before + row_targets(
                    data_row,
                    names,
                    column_start as int,
                    column_index as int,
                ),
            decreases column_stop - column_index,
        {
            let ghost was = targets_model(targets@);
            targets.push((data_row, columns[column_index].clone()));
            proof {
                let row = row_targets(data_row, names, column_start as int, column_index as int);
                assert(targets_model(targets@) =~= was.push((data_row, names[column_index as int])));
                assert((before + row).push((data_row, names[column_index as int])) =~= before
                    + row.push((data_row, names[column_index as int])));
            }
            column_index += 1;
        }
        proof {
            if column_stop <= column_start {
                assert(row_targets(data_row, names, column_start as int, column_index as int).len()
                    == 0);
                assert(row_targets(data_row, names, column_start as int, column_stop as int).len()
                    == 0);
                assert(row_targets(data_row, names, column_start as int, column_index as int)
                    =~= row_targets(data_row, names, column_start as int, column_stop as int));
            }
        }
        display_row += 1;
    }
    proof {
        if row_stop <= row_start {
            let here = grid_targets(
                visible_rows@,
                names,
                row_start as int,
                display_row as int,
                column_start as int,
                column_stop as int,
            );
            let there = grid_targets(
                visible_rows@,
                names,
                row_start as int,
                row_stop as int,
                column_start as int,
                column_stop as int,
            );
            assert(here.len() == 0);
            assert(there.len() == 0);
            assert(here =~= there);
        }
    }
    targets
}

/// The cells that an action on the selection applies to.
pub fn selected_cell_targets(
    selected_range: Option<CellRange>,
    columns: &Vec<String>,
    visible_rows: &Vec<usize>,
    fallback_row: usize,
    fallback_column: &str,
) -> (r: Vec<(usize, String)>)
    ensures
        targets_model(r@) == selected_targets(
            selected_range,
            columns.model(),
            visible_rows@,
            fallback_row,
            fallback_column@,
        ),
{
    let found = match selected_range {
        Some(range) => range_cells(range, columns, visible_rows),
        None => Vec::new(),
    };
    if found.len() == 0 {
        let mut one: Vec<(usize, String)> = Vec::new();
        one.push((fallback_row, fallback_column.to_owned()));
        assert(targets_model(one@) =~= seq![(fallback_row, fallback_column@)]);
        one
    } else {
        found
    }
}

} // verus!
