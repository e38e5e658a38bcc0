use jsonsheet::data_model::{
    add_column, add_row, delete_column, delete_row, set_cell_value, TableData,
};
use jsonsheet::json_io::{load_rows, save_rows};
use jsonsheet::number::Number;
use jsonsheet::table_state::TableState;
use jsonsheet::value::Value;

fn load_fixture(name: &str) -> TableData {
    let text = match name {
        "types.json" => {
            r#"[
  {"name": "Alice", "age": 30, "active": true, "tags": ["a", "b"]},
  {"name": "Bob", "age": 25, "active": false, "tags": []}
]"#
        }
        "mixed_keys.json" => {
            r#"[
  {"name": "Alice"},
  {"name": "Bob", "note": "second"},
  {"id": 3}
]"#
        }
        _ => "[]",
    };
    load_rows(text).unwrap()
}

fn whole(n: i64) -> Value {
    Value::Number(Number::from_i64(n))
}

fn text(s: &str) -> Value {
    Value::String(s.to_string())
}

#[test]
fn test_load_json_from_fixtures() {
    let types_rows = load_fixture("types.json");
    assert_eq!(types_rows.len(), 2);
    assert_eq!(types_rows[0].get("name"), Some(&text("Alice")));
    assert_eq!(types_rows[1].get("active"), Some(&Value::Bool(false)));

    let mixed_rows = load_fixture("mixed_keys.json");
    assert_eq!(mixed_rows.len(), 3);
    assert!(mixed_rows[0].contains_key("name"));
    assert!(mixed_rows[1].contains_key("note"));
}

#[test]
fn test_e2e_open_edit_save_roundtrip() {
    let mut data = load_fixture("types.json");

    set_cell_value(&mut data, 0, "name", text("Zoe"));
    set_cell_value(&mut data, 1, "active", Value::Bool(false));
    add_column(&mut data, "department");
    set_cell_value(&mut data, 0, "department", text("R&D"));
    add_row(&mut data);
    set_cell_value(&mut data, 2, "name", text("New Hire"));
    delete_column(&mut data, "tags");
    delete_row(&mut data, 1);

    let written = save_rows(&data);

    let loaded = load_rows(&written).unwrap();
    assert_eq!(data, loaded);
}

#[test]
fn test_e2e_open_mixed_keys_add_column() {
    let mut data = load_fixture("mixed_keys.json");
    assert!(add_column(&mut data, "status"));
    set_cell_value(&mut data, 0, "status", text("ok"));

    let written = save_rows(&data);

    let reloaded = load_rows(&written).unwrap();
    assert_eq!(data, reloaded);
}

#[test]
fn test_e2e_bootstrap_empty_file_by_adding_column() {
    let mut data = load_fixture("empty.json");
    assert!(add_column(&mut data, "id"));
    set_cell_value(&mut data, 0, "id", whole(1));

    let written = save_rows(&data);

    let reloaded = load_rows(&written).unwrap();
    assert_eq!(reloaded.len(), 1);
    assert_eq!(reloaded[0].get("id"), Some(&whole(1)));
}

#[test]
fn test_e2e_phase3_sort_filter_search_undo() {
    let data = load_fixture("types.json");
    let mut state = TableState::from_data(data);

    assert!(state.sort_by_column_toggle("age"));
    assert_eq!(state.data()[0].get("name"), Some(&text("Bob")));

    state.set_filter(Some("name".to_string()), "bo".to_string());
    let visible = state.visible_row_indices();
    assert_eq!(visible, vec![0]);

    state.set_search("bo".to_string());
    assert!(state.cell_matches_search(0, "name"));

    assert!(state.undo());
    assert_eq!(state.data()[0].get("name"), Some(&text("Alice")));
}
