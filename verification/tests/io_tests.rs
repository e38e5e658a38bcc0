use jsonsheet::data_model::{Row, TableData};
use jsonsheet::json_io::{load_rows, save_rows, JsonIoError};
use jsonsheet::number::Number;
use jsonsheet::strmap::StrMap;
use jsonsheet::value::Value;

fn row(members: Vec<(&str, Value)>) -> Row {
    let mut out: Row = StrMap::new();
    for (name, value) in members {
        out.insert(name.to_string(), value);
    }
    out
}

fn whole(n: i64) -> Value {
    Value::Number(Number::from_i64(n))
}

fn text(s: &str) -> Value {
    Value::String(s.to_string())
}

fn sample_data() -> TableData {
    vec![
        row(vec![
            ("name", text("Alice")),
            ("age", whole(30)),
            ("active", Value::Bool(true)),
        ]),
        row(vec![
            ("name", text("Bob")),
            ("age", whole(25)),
            ("active", Value::Bool(false)),
        ]),
    ]
}

#[test]
fn test_load_json_valid() {
    let rows = load_rows(r#"[{"name":"Alice","age":30},{"name":"Bob","age":25}]"#).unwrap();
    assert_eq!(rows.len(), 2);
    assert_eq!(rows[0].get("name"), Some(&text("Alice")));
    assert_eq!(rows[1].get("age"), Some(&whole(25)));
}

#[test]
fn test_load_json_empty_array() {
    let rows = load_rows("[]").unwrap();
    assert!(rows.is_empty());
}

#[test]
fn test_load_json_not_array() {
    let err = load_rows(r#"{"key": "value"}"#).unwrap_err();
    assert!(matches!(err, JsonIoError::NotAnArray));
}

#[test]
fn test_load_json_not_objects() {
    let err = load_rows("[1, 2, 3]").unwrap_err();
    assert!(matches!(err, JsonIoError::NotArrayOfObjects));
}

#[test]
fn test_load_json_invalid_json() {
    let err = load_rows("not json at all").unwrap_err();
    assert!(matches!(err, JsonIoError::Parse(_)));
}

#[test]
fn test_save_and_load_roundtrip() {
    let rows = sample_data();
    let written = save_rows(&rows);
    let loaded = load_rows(&written).unwrap();

    assert_eq!(rows, loaded);
}

#[test]
fn test_save_json_pretty_printed() {
    let content = save_rows(&sample_data());

    // Pretty-printed JSON contains newlines
    assert!(content.contains('\n'));
}

#[test]
fn test_load_json_with_null_values() {
    let rows = load_rows(r#"[{"name":"Alice","email":null}]"#).unwrap();
    assert_eq!(rows[0].get("email"), Some(&Value::Null));
}

#[test]
fn test_load_json_with_mixed_keys() {
    let rows = load_rows(r#"[{"a":1,"b":2},{"b":3,"c":4}]"#).unwrap();
    assert_eq!(rows.len(), 2);
    assert!(rows[0].contains_key("a"));
    assert!(!rows[0].contains_key("c"));
    assert!(rows[1].contains_key("c"));
}

#[test]
fn test_save_rows_layout_matches_serde_json() {
    let data: TableData = vec![row(vec![
        ("name", text("A \"quoted\" name")),
        ("tags", Value::Array(vec![text("x"), whole(2)])),
        ("none", Value::Array(vec![])),
        ("nest", Value::Object(vec![("k".to_string(), Value::Null)])),
    ])];
    let written = save_rows(&data);
    let reference: serde_json::Value = serde_json::from_str(&written).unwrap();
    assert_eq!(written, serde_json::to_string_pretty(&reference).unwrap());
}

#[test]
fn test_load_rows_takes_the_last_of_repeated_members() {
    let rows = load_rows(r#"[{"a":1,"a":2}]"#).unwrap();
    assert_eq!(rows[0].len(), 1);
    assert_eq!(rows[0].get("a"), Some(&whole(2)));
}

#[test]
fn test_load_rows_reads_nested_values_and_fractions() {
    let rows = load_rows(r#"[{"v":[1,{"w":2.5}],"t":true}]"#).unwrap();
    assert_eq!(
        rows[0].get("v"),
        Some(&Value::Array(vec![
            whole(1),
            Value::Object(vec![(
                "w".to_string(),
                Value::Number(Number::parse("2.5").unwrap())
            )]),
        ]))
    );
    assert_eq!(rows[0].get("t"), Some(&Value::Bool(true)));
}
