use jsonsheet::autofill::{
    build_autofill_plan, increment_delta_for_target, increment_numeric_value, wrap_index,
};
use jsonsheet::data_model::Row;
use jsonsheet::editing::{
    commit_edit, delete_selected_cells, enter_edit_from_selection, finish_autofill_drag,
    CommitResult, EditingCell,
};
use jsonsheet::jsheet::{ColumnType, SummaryKind, ValidationRule};
use jsonsheet::labels::{
    cell_matches_query, column_type_value, enum_values_for_column, has_enum_options,
    parse_column_type, parse_summary_kind, sort_indicator_for_column, summary_kind_value,
};
use jsonsheet::number::Number;
use jsonsheet::selection::{
    autofill_expanded_range, autofill_preview_contains_cell, is_autofill_handle_cell,
    is_single_selected_cell, move_selection, range_cells, range_contains_cell,
    selected_cell_targets, CellPoint, CellRange, Selection,
};
use jsonsheet::strmap::StrMap;
use jsonsheet::table_state::{CellEdit, CellEditKind, SortOrder, SortSpec, TableState};
use jsonsheet::value::Value;

fn grid_row(members: Vec<(&str, Value)>) -> Row {
    let mut out: Row = StrMap::new();
    for (name, value) in members {
        out.insert(name.to_string(), value);
    }
    out
}

fn count(n: i64) -> Value {
    Value::Number(Number::from_i64(n))
}

fn word(s: &str) -> Value {
    Value::String(s.to_string())
}

fn at(row: usize, column: usize) -> CellPoint {
    CellPoint { row, column }
}

fn between(a: CellPoint, b: CellPoint) -> CellRange {
    CellRange { anchor: a, focus: b }
}

fn names(list: &[&str]) -> Vec<String> {
    list.iter().map(|s| s.to_string()).collect()
}

fn four_rows() -> TableState {
    TableState::from_data(vec![
        grid_row(vec![("a", count(1)), ("b", count(10))]),
        grid_row(vec![("a", count(7)), ("b", count(20))]),
        grid_row(vec![("a", count(8)), ("b", count(30))]),
        grid_row(vec![("a", count(9)), ("b", count(40))]),
    ])
}

fn value_edit(row_index: usize, column: &str, value: Value) -> CellEdit {
    CellEdit { row_index, column: column.to_string(), kind: CellEditKind::Value(value) }
}

#[test]
fn a_range_is_the_rectangle_between_its_corners() {
    let range = between(at(5, 1), at(2, 3));
    assert_eq!(range.bounds(), (2, 5, 1, 3));
    assert!(range.contains(at(2, 1)));
    assert!(range.contains(at(5, 3)));
    assert!(range.contains(at(3, 2)));
    assert!(!range.contains(at(1, 2)));
    assert!(!range.contains(at(6, 2)));
    assert!(!range.contains(at(3, 0)));
    assert!(!range.contains(at(3, 4)));
    assert_eq!(CellRange::single(at(4, 4)), between(at(4, 4), at(4, 4)));
    assert_eq!(CellRange::single(at(4, 4)).bounds(), (4, 4, 4, 4));
}

#[test]
fn questions_of_a_missing_selection_are_answered_no() {
    assert!(!range_contains_cell(None, 0, 0));
    assert!(!is_single_selected_cell(None, 0, 0));
    assert!(!is_autofill_handle_cell(None, 0, 0));
    assert!(!autofill_preview_contains_cell(None, Some(at(1, 1)), 1, 1));
    assert!(!autofill_preview_contains_cell(Some(CellRange::single(at(0, 0))), None, 1, 1));
    assert_eq!(autofill_expanded_range(None, Some(at(1, 1))), None);
    assert_eq!(autofill_expanded_range(Some(CellRange::single(at(0, 0))), None), None);
}

#[test]
fn the_handle_sits_on_the_last_cell_of_the_selection() {
    let range = Some(between(at(3, 2), at(1, 0)));
    assert!(is_autofill_handle_cell(range, 3, 2));
    assert!(!is_autofill_handle_cell(range, 1, 0));
    assert!(!is_autofill_handle_cell(range, 3, 0));
    assert!(range_contains_cell(range, 2, 1));
    assert!(!range_contains_cell(range, 4, 1));
    assert!(!is_single_selected_cell(range, 3, 2));
    assert!(is_single_selected_cell(Some(CellRange::single(at(3, 2))), 3, 2));
    assert!(!is_single_selected_cell(Some(CellRange::single(at(3, 2))), 2, 3));
}

#[test]
fn a_drag_covers_the_least_rectangle_around_source_and_target() {
    let source = Some(between(at(2, 2), at(3, 3)));
    assert_eq!(
        autofill_expanded_range(source, Some(at(5, 2))),
        Some(between(at(2, 2), at(5, 3)))
    );
    assert_eq!(
        autofill_expanded_range(source, Some(at(0, 0))),
        Some(between(at(0, 0), at(3, 3)))
    );
    assert_eq!(
        autofill_expanded_range(source, Some(at(3, 2))),
        Some(between(at(2, 2), at(3, 3)))
    );
    assert!(autofill_preview_contains_cell(source, Some(at(5, 2)), 4, 3));
    assert!(autofill_preview_contains_cell(source, Some(at(5, 2)), 5, 2));
    assert!(!autofill_preview_contains_cell(source, Some(at(5, 2)), 3, 3));
    assert!(!autofill_preview_contains_cell(source, Some(at(5, 2)), 6, 2));
}

#[test]
fn a_move_stops_at_the_edges_of_the_grid() {
    let columns = names(&["a", "b"]);
    let visible = vec![5, 6, 7];
    let mut selection = Selection::new();
    move_selection(&mut selection, 1, 0, 3, 2, &columns, &visible);
    assert_eq!(selection.range, Some(CellRange::single(at(1, 0))));
    assert_eq!(selection.row, Some(6));
    assert_eq!(selection.column, Some("a".to_string()));

    move_selection(&mut selection, 5, 1, 3, 2, &columns, &visible);
    assert_eq!(selection.range, Some(CellRange::single(at(2, 1))));
    assert_eq!(selection.row, Some(7));
    assert_eq!(selection.column, Some("b".to_string()));

    move_selection(&mut selection, -1, -7, 3, 2, &columns, &visible);
    assert_eq!(selection.range, Some(CellRange::single(at(1, 0))));

    move_selection(&mut selection, isize::MIN, isize::MAX, 3, 2, &columns, &visible);
    assert_eq!(selection.range, Some(CellRange::single(at(0, 1))));
    assert_eq!(selection.row, Some(5));
    assert_eq!(selection.column, Some("b".to_string()));
}

#[test]
fn a_move_starts_from_the_anchor_and_keeps_what_the_lists_do_not_name() {
    let columns = names(&["a"]);
    let visible = vec![4];
    let mut selection = Selection {
        range: Some(between(at(2, 1), at(9, 9))),
        row: Some(40),
        column: Some("kept".to_string()),
    };
    move_selection(&mut selection, 1, 1, 10, 10, &columns, &visible);
    assert_eq!(selection.range, Some(CellRange::single(at(3, 2))));
    assert_eq!(selection.row, Some(40));
    assert_eq!(selection.column, Some("kept".to_string()));

    let mut far = Selection {
        range: Some(CellRange::single(at(usize::MAX, usize::MAX))),
        row: None,
        column: None,
    };
    move_selection(&mut far, 1, -1, 1, 1, &columns, &visible);
    assert_eq!(far.range, Some(CellRange::single(at(0, 0))));
    assert_eq!(far.row, Some(4));
    assert_eq!(far.column, Some("a".to_string()));
}

#[test]
fn a_selection_stands_for_table_cells_row_by_row() {
    let columns = names(&["a", "b", "c"]);
    let visible = vec![4, 2, 9];
    let range = between(at(2, 2), at(1, 1));
    assert_eq!(
        range_cells(range, &columns, &visible),
        vec![
            (2, "b".to_string()),
            (2, "c".to_string()),
            (9, "b".to_string()),
            (9, "c".to_string()),
        ]
    );
    assert_eq!(
        selected_cell_targets(Some(range), &columns, &visible, 0, "z"),
        range_cells(range, &columns, &visible)
    );
}

#[test]
fn a_selection_off_the_grid_falls_back_to_the_given_cell() {
    let columns = names(&["a", "b"]);
    let visible = vec![0, 1];
    assert_eq!(
        selected_cell_targets(None, &columns, &visible, 7, "z"),
        vec![(7, "z".to_string())]
    );
    assert_eq!(
        selected_cell_targets(Some(between(at(2, 0), at(5, 1))), &columns, &visible, 7, "z"),
        vec![(7, "z".to_string())]
    );
    assert_eq!(
        selected_cell_targets(Some(between(at(0, 2), at(1, 2))), &columns, &visible, 7, "z"),
        vec![(7, "z".to_string())]
    );
    assert_eq!(
        selected_cell_targets(
            Some(between(at(1, 1), at(usize::MAX, usize::MAX))),
            &columns,
            &visible,
            7,
            "z"
        ),
        vec![(1, "b".to_string())]
    );
}

#[test]
fn the_source_repeats_in_both_directions() {
    assert_eq!(wrap_index(2, 2, 4), 2);
    assert_eq!(wrap_index(4, 2, 4), 4);
    assert_eq!(wrap_index(5, 2, 4), 2);
    assert_eq!(wrap_index(6, 2, 4), 3);
    assert_eq!(wrap_index(10, 2, 4), 4);
    assert_eq!(wrap_index(1, 2, 4), 4);
    assert_eq!(wrap_index(0, 2, 4), 3);
    assert_eq!(wrap_index(0, 3, 5), 3);
    assert_eq!(wrap_index(7, 3, 3), 3);
    assert_eq!(wrap_index(0, 3, 3), 3);
    assert_eq!(wrap_index(0, 0, usize::MAX), 0);
    assert_eq!(wrap_index(usize::MAX, 0, usize::MAX), usize::MAX);
    assert_eq!(wrap_index(0, usize::MAX, usize::MAX), usize::MAX);
    assert_eq!(wrap_index(usize::MAX, 1, 2), 1 + (usize::MAX - 1) % 2);
}

#[test]
fn a_single_cell_counts_along_its_row_and_its_column_only() {
    let source = CellRange::single(at(2, 3));
    assert_eq!(increment_delta_for_target(true, source, at(5, 3)), Some(Number::from_i64(3)));
    assert_eq!(increment_delta_for_target(true, source, at(0, 3)), Some(Number::from_i64(-2)));
    assert_eq!(increment_delta_for_target(true, source, at(2, 7)), Some(Number::from_i64(4)));
    assert_eq!(increment_delta_for_target(true, source, at(2, 0)), Some(Number::from_i64(-3)));
    assert_eq!(increment_delta_for_target(true, source, at(2, 3)), None);
    assert_eq!(increment_delta_for_target(true, source, at(3, 4)), None);
    assert_eq!(increment_delta_for_target(false, source, at(5, 3)), None);
}

#[test]
fn only_numbers_count_on() {
    let three = Number::from_i64(3);
    assert_eq!(increment_numeric_value(&count(4), &three), Some(count(7)));
    assert_eq!(
        increment_numeric_value(&count(4), &Number::from_i64(-6)),
        Some(count(-2))
    );
    assert_eq!(
        increment_numeric_value(&Value::Number(Number::parse("1.5").unwrap()), &three),
        Some(Value::Number(Number::parse("4.5").unwrap()))
    );
    assert_eq!(increment_numeric_value(&word("4"), &three), None);
    assert_eq!(increment_numeric_value(&Value::Bool(true), &three), None);
    assert_eq!(increment_numeric_value(&Value::Null, &three), None);
    assert_eq!(
        increment_numeric_value(&Value::Number(Number::from_u64(u64::MAX)), &three),
        None
    );
}

#[test]
fn a_single_number_fills_a_column_counting_up() {
    let state = four_rows();
    let columns = names(&["a", "b"]);
    let visible = vec![0, 1, 2, 3];
    let plan = build_autofill_plan(
        &state,
        &columns,
        &visible,
        Some(CellRange::single(at(0, 0))),
        Some(at(3, 0)),
    );
    assert_eq!(
        plan.edits,
        vec![
            value_edit(1, "a", count(2)),
            value_edit(2, "a", count(3)),
            value_edit(3, "a", count(4)),
        ]
    );
    assert!(!plan.touches_formula);
}

#[test]
fn a_single_number_fills_upwards_counting_down() {
    let state = four_rows();
    let columns = names(&["a", "b"]);
    let visible = vec![0, 1, 2, 3];
    let plan = build_autofill_plan(
        &state,
        &columns,
        &visible,
        Some(CellRange::single(at(3, 1))),
        Some(at(1, 1)),
    );
    assert_eq!(
        plan.edits,
        vec![value_edit(1, "b", count(38)), value_edit(2, "b", count(39))]
    );
}

#[test]
fn a_single_cell_dragged_aslant_counts_on_its_lines_and_copies_elsewhere() {
    let state = four_rows();
    let columns = names(&["a", "b"]);
    let visible = vec![0, 1, 2, 3];
    let plan = build_autofill_plan(
        &state,
        &columns,
        &visible,
        Some(CellRange::single(at(0, 0))),
        Some(at(1, 1)),
    );
    assert_eq!(
        plan.edits,
        vec![
            value_edit(0, "b", count(2)),
            value_edit(1, "a", count(2)),
            value_edit(1, "b", count(1)),
        ]
    );
}

#[test]
fn a_source_of_several_cells_repeats_without_counting() {
    let state = four_rows();
    let columns = names(&["a", "b"]);
    let visible = vec![0, 1, 2, 3];
    let down = build_autofill_plan(
        &state,
        &columns,
        &visible,
        Some(between(at(0, 0), at(1, 0))),
        Some(at(3, 0)),
    );
    assert_eq!(
        down.edits,
        vec![value_edit(2, "a", count(1)), value_edit(3, "a", count(7))]
    );
    let up = build_autofill_plan(
        &state,
        &columns,
        &visible,
        Some(between(at(2, 1), at(3, 1))),
        Some(at(0, 1)),
    );
    assert_eq!(
        up.edits,
        vec![value_edit(0, "b", count(30)), value_edit(1, "b", count(40))]
    );
    let across = build_autofill_plan(
        &state,
        &columns,
        &visible,
        Some(between(at(0, 0), at(1, 0))),
        Some(at(1, 1)),
    );
    assert_eq!(
        across.edits,
        vec![value_edit(0, "b", count(1)), value_edit(1, "b", count(7))]
    );
}

#[test]
fn a_text_is_copied_as_it_is() {
    let state = TableState::from_data(vec![
        grid_row(vec![("a", word("x"))]),
        grid_row(vec![("a", Value::Null)]),
        grid_row(vec![]),
    ]);
    let columns = names(&["a"]);
    let visible = vec![0, 1, 2];
    let plan = build_autofill_plan(
        &state,
        &columns,
        &visible,
        Some(CellRange::single(at(0, 0))),
        Some(at(2, 0)),
    );
    assert_eq!(
        plan.edits,
        vec![value_edit(1, "a", word("x")), value_edit(2, "a", word("x"))]
    );
}

#[test]
fn a_source_without_a_value_fills_nothing() {
    let state = TableState::from_data(vec![
        grid_row(vec![("a", count(1))]),
        grid_row(vec![("a", count(2))]),
    ]);
    let columns = names(&["a", "ghost"]);
    let visible = vec![0, 1];
    let plan = build_autofill_plan(
        &state,
        &columns,
        &visible,
        Some(CellRange::single(at(0, 1))),
        Some(at(1, 1)),
    );
    assert!(plan.edits.is_empty());
    assert!(!plan.touches_formula);
}

#[test]
fn a_fill_without_source_or_target_is_empty() {
    let state = four_rows();
    let columns = names(&["a", "b"]);
    let visible = vec![0, 1, 2, 3];
    let none = build_autofill_plan(&state, &columns, &visible, None, Some(at(1, 1)));
    assert!(none.edits.is_empty());
    let half = build_autofill_plan(
        &state,
        &columns,
        &visible,
        Some(CellRange::single(at(0, 0))),
        None,
    );
    assert!(half.edits.is_empty());
    let same = build_autofill_plan(
        &state,
        &columns,
        &visible,
        Some(CellRange::single(at(0, 0))),
        Some(at(0, 0)),
    );
    assert!(same.edits.is_empty());
}

#[test]
fn a_fill_follows_the_rows_in_view_and_stops_at_the_grid() {
    let state = four_rows();
    let columns = names(&["b", "a"]);
    let visible = vec![3, 1];
    let plan = build_autofill_plan(
        &state,
        &columns,
        &visible,
        Some(CellRange::single(at(0, 0))),
        Some(at(9, 0)),
    );
    assert_eq!(plan.edits, vec![value_edit(1, "b", count(41))]);
    let wide = build_autofill_plan(
        &state,
        &columns,
        &visible,
        Some(CellRange::single(at(0, 0))),
        Some(at(0, usize::MAX)),
    );
    assert_eq!(wide.edits, vec![value_edit(3, "a", count(41))]);
}

#[test]
fn a_formula_goes_along_as_it_is() {
    let mut state = four_rows();
    assert!(state.add_column("f"));
    assert!(state.set_cell_formula(0, "f", "=a*2".to_string()));
    let stored = state.cell_formula(0, "f").unwrap();
    let columns = names(&["a", "b", "f"]);
    let visible = vec![0, 1, 2, 3];
    let plan = build_autofill_plan(
        &state,
        &columns,
        &visible,
        Some(CellRange::single(at(0, 2))),
        Some(at(2, 2)),
    );
    assert_eq!(
        plan.edits,
        vec![
            CellEdit {
                row_index: 1,
                column: "f".to_string(),
                kind: CellEditKind::Formula(stored.clone()),
            },
            CellEdit {
                row_index: 2,
                column: "f".to_string(),
                kind: CellEditKind::Formula(stored.clone()),
            },
        ]
    );
    assert!(plan.touches_formula);
}

#[test]
fn ending_a_drag_fills_the_table_in_one_step() {
    let mut state = four_rows();
    let columns = names(&["a", "b"]);
    let visible = vec![0, 1, 2, 3];
    let mut selected = Some(CellRange::single(at(0, 0)));
    let (changed, formulas) = finish_autofill_drag(
        &mut state,
        &mut selected,
        &columns,
        &visible,
        Some(CellRange::single(at(0, 0))),
        Some(at(3, 0)),
    );
    assert_eq!(changed, 3);
    assert!(!formulas);
    assert_eq!(selected, Some(between(at(0, 0), at(3, 0))));
    assert_eq!(state.cell_value(1, "a"), Some(count(2)));
    assert_eq!(state.cell_value(2, "a"), Some(count(3)));
    assert_eq!(state.cell_value(3, "a"), Some(count(4)));
    assert!(state.undo());
    assert_eq!(state.cell_value(1, "a"), Some(count(7)));
    assert_eq!(state.cell_value(3, "a"), Some(count(9)));
    assert!(!state.can_undo());
}

#[test]
fn ending_a_drag_over_formulas_says_so() {
    let mut state = four_rows();
    assert!(state.add_column("f"));
    assert!(state.set_cell_formula(0, "f", "=a+b".to_string()));
    let columns = names(&["a", "b", "f"]);
    let visible = vec![0, 1, 2, 3];
    let mut selected = None;
    let (changed, formulas) = finish_autofill_drag(
        &mut state,
        &mut selected,
        &columns,
        &visible,
        Some(CellRange::single(at(0, 2))),
        Some(at(1, 2)),
    );
    assert_eq!(changed, 1);
    assert!(formulas);
    assert_eq!(selected, Some(between(at(0, 2), at(1, 2))));
    assert_eq!(state.cell_value(1, "f"), Some(count(27)));
}

#[test]
fn ending_a_drag_that_changes_nothing_leaves_no_history() {
    let mut state = four_rows();
    let columns = names(&["a", "b"]);
    let visible = vec![0, 1, 2, 3];
    let mut selected = Some(CellRange::single(at(2, 0)));
    let (changed, formulas) = finish_autofill_drag(
        &mut state,
        &mut selected,
        &columns,
        &visible,
        Some(CellRange::single(at(1, 0))),
        Some(at(3, 0)),
    );
    assert_eq!(changed, 0);
    assert!(!formulas);
    assert_eq!(selected, Some(between(at(1, 0), at(3, 0))));
    assert!(!state.can_undo());

    let mut kept = Some(CellRange::single(at(2, 0)));
    let (none, _) = finish_autofill_drag(&mut state, &mut kept, &columns, &visible, None, None);
    assert_eq!(none, 0);
    assert_eq!(kept, Some(CellRange::single(at(2, 0))));
}

#[test]
fn a_cell_opens_with_its_formula_or_its_value() {
    let mut state = four_rows();
    assert!(state.add_column("f"));
    assert!(state.set_cell_formula(1, "f", "=a + 1".to_string()));
    let formula = state.cell_formula(1, "f").unwrap();
    let columns = names(&["a", "b", "f"]);
    let visible = vec![1, 3];
    assert_eq!(
        enter_edit_from_selection(&state, Some(between(at(0, 2), at(1, 0))), &columns, &visible),
        Some(EditingCell { row: 1, column: "f".to_string(), draft: format!("={formula}") })
    );
    assert_eq!(
        enter_edit_from_selection(&state, Some(CellRange::single(at(1, 1))), &columns, &visible),
        Some(EditingCell { row: 3, column: "b".to_string(), draft: "40".to_string() })
    );
    assert_eq!(
        enter_edit_from_selection(&state, Some(CellRange::single(at(1, 2))), &columns, &visible),
        Some(EditingCell { row: 3, column: "f".to_string(), draft: String::new() })
    );
    assert_eq!(enter_edit_from_selection(&state, None, &columns, &visible), None);
    assert_eq!(
        enter_edit_from_selection(&state, Some(CellRange::single(at(2, 0))), &columns, &visible),
        None
    );
    assert_eq!(
        enter_edit_from_selection(&state, Some(CellRange::single(at(0, 3))), &columns, &visible),
        None
    );
}

#[test]
fn a_cell_of_an_unknown_column_opens_empty() {
    let state = four_rows();
    let columns = names(&["ghost"]);
    let visible = vec![0];
    assert_eq!(
        enter_edit_from_selection(&state, Some(CellRange::single(at(0, 0))), &columns, &visible),
        Some(EditingCell { row: 0, column: "ghost".to_string(), draft: String::new() })
    );
}

#[test]
fn a_draft_that_begins_with_an_equals_sign_is_a_formula() {
    let mut state = four_rows();
    assert!(state.add_column("f"));
    let good = EditingCell { row: 0, column: "f".to_string(), draft: "  =a+b ".to_string() };
    assert_eq!(commit_edit(&mut state, &good), (CommitResult::Applied, true));
    assert_eq!(state.cell_value(0, "f"), Some(count(11)));

    let bad = EditingCell { row: 1, column: "f".to_string(), draft: "=a+".to_string() };
    assert_eq!(commit_edit(&mut state, &bad), (CommitResult::InvalidFormula, false));
    assert_eq!(state.cell_formula(1, "f"), None);

    let again = EditingCell { row: 0, column: "f".to_string(), draft: "=a+b".to_string() };
    assert_eq!(commit_edit(&mut state, &again), (CommitResult::InvalidFormula, false));

    let nowhere = EditingCell { row: 9, column: "f".to_string(), draft: "=1".to_string() };
    assert_eq!(commit_edit(&mut state, &nowhere), (CommitResult::InvalidFormula, false));
}

#[test]
fn a_plain_draft_is_a_value_and_withdraws_the_formula() {
    let mut state = four_rows();
    let plain = EditingCell { row: 0, column: "a".to_string(), draft: "hello".to_string() };
    assert_eq!(commit_edit(&mut state, &plain), (CommitResult::Applied, false));
    assert_eq!(state.cell_value(0, "a"), Some(word("hello")));

    assert!(state.add_column("f"));
    assert!(state.set_cell_formula(2, "f", "=a*2".to_string()));
    assert_eq!(state.cell_value(2, "f"), Some(count(16)));
    let over = EditingCell { row: 2, column: "f".to_string(), draft: "5".to_string() };
    assert_eq!(commit_edit(&mut state, &over), (CommitResult::Applied, true));
    assert_eq!(state.cell_formula(2, "f"), None);
    assert_eq!(state.cell_value(2, "f"), Some(count(5)));
}

#[test]
fn a_draft_that_the_column_refuses_changes_nothing() {
    let mut state = four_rows();
    state.set_column_type("a", Some(ColumnType::Number));
    let bad = EditingCell { row: 0, column: "a".to_string(), draft: "abc".to_string() };
    assert_eq!(commit_edit(&mut state, &bad), (CommitResult::InvalidTypedValue, false));
    assert_eq!(state.cell_value(0, "a"), Some(count(1)));
    assert!(!state.can_undo());

    let good = EditingCell { row: 0, column: "a".to_string(), draft: "42".to_string() };
    assert_eq!(commit_edit(&mut state, &good), (CommitResult::Applied, false));
    assert_eq!(state.cell_value(0, "a"), Some(count(42)));

    let same = EditingCell { row: 0, column: "a".to_string(), draft: "42".to_string() };
    assert_eq!(commit_edit(&mut state, &same), (CommitResult::InvalidTypedValue, false));
}

#[test]
fn clearing_a_selection_is_one_step() {
    let mut state = four_rows();
    let columns = names(&["a", "b"]);
    let visible = vec![0, 1, 2, 3];
    let changed = delete_selected_cells(
        &mut state,
        Some(between(at(1, 0), at(2, 1))),
        &columns,
        &visible,
    );
    assert_eq!(changed, 4);
    assert_eq!(state.cell_value(1, "a"), Some(Value::Null));
    assert_eq!(state.cell_value(2, "b"), Some(Value::Null));
    assert_eq!(state.cell_value(0, "a"), Some(count(1)));
    assert_eq!(state.cell_value(3, "b"), Some(count(40)));
    assert!(state.undo());
    assert_eq!(state.cell_value(1, "a"), Some(count(7)));
    assert_eq!(state.cell_value(2, "b"), Some(count(30)));
    assert!(!state.can_undo());
}

#[test]
fn clearing_nothing_changes_nothing() {
    let mut state = four_rows();
    let columns = names(&["a", "b"]);
    let visible = vec![0, 1, 2, 3];
    assert_eq!(delete_selected_cells(&mut state, None, &columns, &visible), 0);
    assert_eq!(
        delete_selected_cells(
            &mut state,
            Some(CellRange::single(at(7, 7))),
            &columns,
            &visible
        ),
        0
    );
    assert!(!state.can_undo());
    assert_eq!(
        delete_selected_cells(&mut state, Some(CellRange::single(at(0, 0))), &columns, &visible),
        1
    );
    assert_eq!(
        delete_selected_cells(&mut state, Some(CellRange::single(at(0, 0))), &columns, &visible),
        0
    );
}

#[test]
fn types_and_summaries_are_named_in_small_letters() {
    for t in [ColumnType::String, ColumnType::Number, ColumnType::Bool, ColumnType::Null] {
        assert_eq!(parse_column_type(column_type_value(t)), Some(t));
    }
    for k in [
        SummaryKind::Sum,
        SummaryKind::Avg,
        SummaryKind::Count,
        SummaryKind::Min,
        SummaryKind::Max,
    ] {
        assert_eq!(parse_summary_kind(summary_kind_value(k)), Some(k));
    }
    assert_eq!(column_type_value(ColumnType::Bool), "bool");
    assert_eq!(column_type_value(ColumnType::String), "string");
    assert_eq!(summary_kind_value(SummaryKind::Avg), "avg");
    assert_eq!(summary_kind_value(SummaryKind::Count), "count");
    assert_eq!(parse_column_type("Number"), None);
    assert_eq!(parse_column_type(""), None);
    assert_eq!(parse_column_type(" bool"), None);
    assert_eq!(parse_summary_kind("SUM"), None);
    assert_eq!(parse_summary_kind("mean"), None);
}

#[test]
fn the_sorted_column_is_marked_by_its_direction() {
    let spec = SortSpec { column: "age".to_string(), order: SortOrder::Asc };
    let up = sort_indicator_for_column("age", Some(&spec));
    assert_eq!((up.symbol, up.class_suffix), ("\u{25B2}", "asc"));
    let other = sort_indicator_for_column("name", Some(&spec));
    assert_eq!((other.symbol, other.class_suffix), ("\u{25BD}", "none"));
    let spec = SortSpec { column: "age".to_string(), order: SortOrder::Desc };
    let down = sort_indicator_for_column("age", Some(&spec));
    assert_eq!((down.symbol, down.class_suffix), ("\u{25BC}", "desc"));
    let none = sort_indicator_for_column("age", None);
    assert_eq!((none.symbol, none.class_suffix), ("\u{25BD}", "none"));
}

#[test]
fn a_stored_cell_matches_a_query_whatever_the_case() {
    let r = grid_row(vec![("name", word("Alice")), ("age", count(30)), ("gone", Value::Null)]);
    assert!(cell_matches_query(&r, "name", "LIC"));
    assert!(cell_matches_query(&r, "name", "alice"));
    assert!(cell_matches_query(&r, "age", "3"));
    assert!(!cell_matches_query(&r, "gone", "nul"));
    assert!(!cell_matches_query(&r, "name", "bob"));
    assert!(!cell_matches_query(&r, "name", ""));
    assert!(!cell_matches_query(&r, "nowhere", "a"));
}

#[test]
fn a_column_offers_the_texts_its_rule_admits() {
    let mut state = four_rows();
    assert!(enum_values_for_column(&state, "a").is_empty());
    assert!(!has_enum_options(&state, "a"));
    state.set_validation_rule(
        "a",
        Some(ValidationRule {
            min: None,
            max: None,
            enum_values: Some(names(&["low", "high"])),
        }),
    );
    state.set_validation_rule(
        "b",
        Some(ValidationRule { min: Some(Number::from_i64(0)), max: None, enum_values: None }),
    );
    assert_eq!(enum_values_for_column(&state, "a"), names(&["low", "high"]));
    assert!(has_enum_options(&state, "a"));
    assert!(enum_values_for_column(&state, "b").is_empty());
    assert!(!has_enum_options(&state, "b"));
}
