use jsonsheet::data_model::{
    add_column, add_row, delete_column, delete_row, derive_columns, set_cell_value, Row, TableData,
};
use jsonsheet::json_io::value_from_text;
use jsonsheet::number::Number;
use jsonsheet::strmap::StrMap;
use jsonsheet::value::{display_value, parse_cell_input, Value};

fn row(members: Vec<(&str, Value)>) -> Row {
    let mut out: Row = StrMap::new();
    for (name, value) in members {
        out.insert(name.to_string(), value);
    }
    out
}

fn whole(n: i64) -> Value {
    Value::Number(Number::from_i64(n))
}

#[test]
fn test_derive_columns_basic() {
    let data: TableData = vec![
        row(vec![
            ("name", Value::String("Alice".to_string())),
            ("age", whole(30)),
        ]),
        row(vec![
            ("name", Value::String("Bob".to_string())),
            ("age", whole(25)),
        ]),
    ];

    let cols = derive_columns(&data);
    assert_eq!(cols, vec!["age", "name"]);
}

#[test]
fn test_derive_columns_mixed_keys() {
    let data: TableData = vec![
        row(vec![("a", Value::Null), ("b", Value::Null)]),
        row(vec![("b", Value::Null), ("c", Value::Null)]),
    ];

    let cols = derive_columns(&data);
    assert_eq!(cols, vec!["a", "b", "c"]);
}

#[test]
fn test_derive_columns_empty() {
    let data: TableData = vec![];
    let cols = derive_columns(&data);
    assert!(cols.is_empty());
}

#[test]
fn test_derive_columns_single_row() {
    let data: TableData = vec![row(vec![("x", whole(1))])];

    let cols = derive_columns(&data);
    assert_eq!(cols, vec!["x"]);
}

#[test]
fn test_derive_columns_sorted() {
    let data: TableData = vec![row(vec![
        ("zebra", Value::Null),
        ("apple", Value::Null),
        ("mango", Value::Null),
    ])];

    let cols = derive_columns(&data);
    assert_eq!(cols, vec!["apple", "mango", "zebra"]);
}

#[test]
fn test_display_value_string() {
    let v = Value::String("hello".to_string());
    assert_eq!(display_value(&v), "hello");
}

#[test]
fn test_display_value_number() {
    let v = whole(42);
    assert_eq!(display_value(&v), "42");
}

#[test]
fn test_display_value_bool() {
    assert_eq!(display_value(&Value::Bool(true)), "true");
    assert_eq!(display_value(&Value::Bool(false)), "false");
}

#[test]
fn test_display_value_null() {
    assert_eq!(display_value(&Value::Null), "");
}

#[test]
fn test_display_value_array() {
    let v: Value = value_from_text("[1,2,3]").unwrap();
    assert_eq!(display_value(&v), "[1,2,3]");
}

#[test]
fn test_display_value_object() {
    let v: Value = value_from_text(r#"{"key":"val"}"#).unwrap();
    assert_eq!(display_value(&v), r#"{"key":"val"}"#);
}

#[test]
fn test_parse_cell_input_null_bool() {
    assert_eq!(parse_cell_input(""), Value::Null);
    assert_eq!(parse_cell_input("null"), Value::Null);
    assert_eq!(parse_cell_input("TRUE"), Value::Bool(true));
    assert_eq!(parse_cell_input("false"), Value::Bool(false));
}

#[test]
fn test_parse_cell_input_numbers() {
    assert_eq!(parse_cell_input("42"), whole(42));
    let float_val = parse_cell_input("3.14");
    match float_val {
        Value::Number(n) => {
            let expected = "3.14".parse::<f64>().unwrap();
            assert_eq!(n.to_text().parse::<f64>().unwrap(), expected);
        }
        _ => panic!("expected number"),
    }
}

#[test]
fn test_parse_cell_input_strings() {
    assert_eq!(
        parse_cell_input("hello"),
        Value::String("hello".to_string())
    );
    assert_eq!(
        parse_cell_input("\"quoted\""),
        Value::String("quoted".to_string())
    );
    assert_eq!(
        parse_cell_input("'single'"),
        Value::String("single".to_string())
    );
}

#[test]
fn test_add_delete_row() {
    let mut data: TableData = vec![row(vec![("x", Value::Null)])];
    add_row(&mut data);
    assert_eq!(data.len(), 2);
    assert!(data[1].contains_key("x"));

    assert!(delete_row(&mut data, 0));
    assert_eq!(data.len(), 1);
    assert!(!delete_row(&mut data, 99));
}

#[test]
fn test_add_delete_column() {
    let mut data: TableData = vec![row(vec![("a", Value::Null)])];
    assert!(add_column(&mut data, "b"));
    assert!(data[0].contains_key("b"));
    assert!(!add_column(&mut data, "b"));

    assert!(delete_column(&mut data, "a"));
    assert!(!data[0].contains_key("a"));
}

#[test]
fn test_set_cell_value() {
    let mut data: TableData = vec![row(vec![("a", Value::Null)])];
    assert!(set_cell_value(
        &mut data,
        0,
        "a",
        Value::String("ok".to_string())
    ));
    assert_eq!(data[0].get("a"), Some(&Value::String("ok".to_string())));
    assert!(!set_cell_value(&mut data, 10, "a", Value::Null));
}

#[test]
fn test_add_column_invalid_name() {
    let mut data: TableData = vec![row(vec![("a", Value::Null)])];
    assert!(!add_column(&mut data, ""));
    assert!(!add_column(&mut data, "   "));
}

#[test]
fn test_delete_column_missing() {
    let mut data: TableData = vec![row(vec![("a", Value::Null)])];
    assert!(!delete_column(&mut data, "missing"));
}

#[test]
fn test_add_column_bootstraps_empty_table() {
    let mut data: TableData = vec![];
    assert!(add_column(&mut data, "first_col"));
    assert_eq!(data.len(), 1);
    assert_eq!(derive_columns(&data), vec!["first_col"]);
    assert_eq!(data[0].get("first_col"), Some(&Value::Null));
}
