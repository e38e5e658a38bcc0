use jsonsheet::data_model::Row;
use jsonsheet::number::Number;
use jsonsheet::strmap::StrMap;
use jsonsheet::table_state::{SortOrder, TableState};
use jsonsheet::value::Value;

fn row(members: Vec<(&str, Value)>) -> Row {
    let mut out: Row = StrMap::new();
    for (name, value) in members {
        out.insert(name.to_string(), value);
    }
    out
}

fn whole(n: i64) -> Value {
    Value::Number(Number::from_i64(n))
}

fn unsigned(n: u64) -> Value {
    Value::Number(Number::from_u64(n))
}

fn text(s: &str) -> Value {
    Value::String(s.to_string())
}

fn sample_state() -> TableState {
    TableState::from_data(vec![
        row(vec![
            ("name", text("Alice")),
            ("age", whole(30)),
            ("active", Value::Bool(true)),
        ]),
        row(vec![
            ("name", text("Bob")),
            ("age", whole(25)),
            ("active", Value::Bool(false)),
        ]),
        row(vec![
            ("name", text("Carol")),
            ("age", whole(40)),
            ("active", Value::Bool(true)),
        ]),
    ])
}

#[test]
fn test_undo_redo_cell_edit() {
    let mut state = sample_state();

    assert!(state.set_cell_value(0, "name", text("Zed")));
    assert_eq!(state.data()[0].get("name"), Some(&text("Zed")));
    assert!(state.can_undo());

    assert!(state.undo());
    assert_eq!(state.data()[0].get("name"), Some(&text("Alice")));
    assert!(state.can_redo());

    assert!(state.redo());
    assert_eq!(state.data()[0].get("name"), Some(&text("Zed")));
}

#[test]
fn test_redo_cleared_after_new_operation() {
    let mut state = sample_state();
    assert!(state.set_cell_value(0, "name", text("A")));
    assert!(state.undo());
    assert!(state.can_redo());

    assert!(state.add_row());
    assert!(!state.can_redo());
}

#[test]
fn test_sort_toggle_asc_desc() {
    let mut state = sample_state();

    assert!(state.sort_by_column_toggle("age"));
    assert_eq!(state.data()[0].get("name"), Some(&text("Bob")));
    assert_eq!(
        state.sort_spec().map(|spec| spec.order),
        Some(SortOrder::Asc)
    );

    assert!(state.sort_by_column_toggle("age"));
    assert_eq!(state.data()[0].get("name"), Some(&text("Carol")));
    assert_eq!(
        state.sort_spec().map(|spec| spec.order),
        Some(SortOrder::Desc)
    );
}

#[test]
fn test_filter_by_column_value() {
    let mut state = sample_state();
    state.set_filter(Some("name".to_string()), "bo".to_string());

    let visible = state.visible_row_indices();
    assert_eq!(visible, vec![1]);
}

#[test]
fn test_search_full_table_cell_match() {
    let mut state = sample_state();
    state.set_search("ali".to_string());

    assert!(state.cell_matches_search(0, "name"));
    assert!(!state.cell_matches_search(1, "name"));
    assert!(!state.cell_matches_search(0, "age"));
}

#[test]
fn test_undo_redo_sort_restores_sort_state() {
    let mut state = sample_state();
    assert!(state.sort_by_column_toggle("name"));
    assert_eq!(
        state.sort_spec().map(|spec| spec.order),
        Some(SortOrder::Asc)
    );

    assert!(state.undo());
    assert_eq!(state.sort_spec(), None);

    assert!(state.redo());
    assert_eq!(
        state.sort_spec().map(|spec| spec.order),
        Some(SortOrder::Asc)
    );
}

#[test]
fn test_sort_large_integer_values_without_precision_loss() {
    let mut state = TableState::from_data(vec![
        row(vec![("id", unsigned(9_007_199_254_740_993u64))]),
        row(vec![("id", unsigned(9_007_199_254_740_992u64))]),
    ]);

    assert!(state.sort_by_column_toggle("id"));
    assert_eq!(
        state.data()[0].get("id"),
        Some(&unsigned(9_007_199_254_740_992u64))
    );
    assert_eq!(
        state.data()[1].get("id"),
        Some(&unsigned(9_007_199_254_740_993u64))
    );
}

#[test]
fn test_delete_filtered_column_clears_filter_state() {
    let mut state = sample_state();
    state.set_filter(Some("name".to_string()), "bo".to_string());
    assert_eq!(state.visible_row_indices(), vec![1]);

    assert!(state.delete_column("name"));
    assert_eq!(state.filter_column(), None);
    assert_eq!(state.filter_query(), "");
    assert_eq!(state.visible_row_indices(), vec![0, 1, 2]);
}
