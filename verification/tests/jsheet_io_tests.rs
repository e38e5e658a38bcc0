use jsonsheet::data_model::{Row, TableData};
use jsonsheet::jsheet::{ColumnType, JSheetMeta};
use jsonsheet::jsheet_io::{
    load_sidecar, save_sidecar, sidecar_from_text, sidecar_path_for_json, sidecar_to_text,
    JSheetFile, JSheetIoError,
};
use jsonsheet::json_io::value_from_text;
use jsonsheet::model::Model;
use jsonsheet::number::Number;
use jsonsheet::strmap::{StrMap, StrSet};
use jsonsheet::jsheet::{ColumnConstraint, ColumnStyle};
use jsonsheet::value::Value;

fn row(members: Vec<(&str, Value)>) -> Row {
    let mut out: Row = StrMap::new();
    for (name, value) in members {
        out.insert(name.to_string(), value);
    }
    out
}

fn whole(n: i64) -> Value {
    Value::Number(Number::from_i64(n))
}

fn text(s: &str) -> Value {
    Value::String(s.to_string())
}

fn sample_rows() -> TableData {
    vec![row(vec![("name", text("Alice")), ("age", whole(30))])]
}

fn member<'a>(value: &'a Value, name: &str) -> Option<&'a Value> {
    match value {
        Value::Object(members) => members.iter().find(|(k, _)| k == name).map(|(_, v)| v),
        _ => None,
    }
}

fn empty_file() -> JSheetFile {
    JSheetFile {
        columns: StrMap::new(),
        column_order: Vec::new(),
        row_key: None,
        comment_columns: StrSet::new(),
        summaries: StrMap::new(),
        keyed_cell_formulas: StrMap::new(),
        keyed_cell_styles: StrMap::new(),
        keyed_comment_rows: StrMap::new(),
        cell_formulas: Vec::new(),
        cell_styles: Vec::new(),
        comment_rows: Vec::new(),
        conditional_formats: Vec::new(),
        validation: StrMap::new(),
        frozen_columns: None,
    }
}

#[test]
fn test_sidecar_path_suffix() {
    let sidecar = sidecar_path_for_json("D:/tmp/demo.json");
    assert!(sidecar.ends_with("demo.json.jsheet"));
}

#[test]
fn test_load_json_and_sidecar_missing_sidecar_defaults() {
    let rows = sample_rows();
    let meta = load_sidecar(None, &rows).unwrap();
    assert_eq!(rows.len(), 1);
    assert_eq!(meta, JSheetMeta::default());
    assert!(meta.same_as(&JSheetMeta::new()));
}

#[test]
fn test_load_json_and_sidecar_with_legacy_indexed_format() {
    let rows = sample_rows();
    let sidecar = r##"{
          "columns": { "age": { "type": "number" } },
          "cell_formulas": [
            { "age2": "age * 2" }
          ],
          "comment_columns": ["note"],
          "comment_rows": [{ "note": "internal" }],
          "cell_styles": [
            { "age": { "color": "#aa0000" } }
          ]
        }"##;

    let meta = load_sidecar(Some(sidecar), &rows).unwrap();
    assert_eq!(rows.len(), 1);
    assert_eq!(
        meta.columns.get("age").unwrap().value_type,
        ColumnType::Number
    );
    assert_eq!(
        meta.formula_for_cell(0, "age2").map(|s| s.as_str()),
        Some("age * 2")
    );
    assert!(meta.comment_columns.contains("note"));
    assert_eq!(meta.comment_rows[0].get("note"), Some(&text("internal")));
    assert_eq!(
        meta.cell_style(0, "age").and_then(|s| s.color.clone()),
        Some("#aa0000".to_string())
    );
}

#[test]
fn test_save_sidecar_roundtrip_without_row_key() {
    let rows = sample_rows();

    let mut meta = JSheetMeta::default();
    assert!(meta.set_formula_for_cell(0, "age2", "age * 2".to_string()));
    meta.set_cell_style(0, "age", Some("#aa0000".to_string()), None);
    let written = save_sidecar(&meta, &rows);

    let loaded = load_sidecar(Some(&written), &rows).unwrap();
    assert_eq!(
        loaded.formula_for_cell(0, "age2").map(|s| s.as_str()),
        Some("age * 2")
    );
    assert_eq!(
        loaded.cell_style(0, "age").and_then(|s| s.color.clone()),
        Some("#aa0000".to_string())
    );
}

#[test]
fn test_save_sidecar_roundtrip_with_row_key() {
    let rows: TableData = vec![
        row(vec![
            ("id", whole(1)),
            ("name", text("Alice")),
            ("age", whole(30)),
        ]),
        row(vec![
            ("id", whole(2)),
            ("name", text("Bob")),
            ("age", whole(25)),
        ]),
    ];

    let mut meta = JSheetMeta::default();
    meta.set_row_key(Some("id".to_string()));
    assert!(meta.set_formula_for_cell(0, "score", "age * 2".to_string()));
    assert!(meta.set_formula_for_cell(1, "score", "age * 3".to_string()));
    meta.set_cell_style(0, "name", Some("#ff0000".to_string()), None);
    let written = save_sidecar(&meta, &rows);

    // Read back the raw text to verify keyed format
    let raw = value_from_text(&written).unwrap();
    let keyed = member(&raw, "keyed_cell_formulas").unwrap();
    assert!(matches!(member(keyed, "1"), Some(Value::Object(_))));
    assert!(matches!(member(keyed, "2"), Some(Value::Object(_))));
    // cell_formulas should be absent (skipped when empty)
    assert!(member(&raw, "cell_formulas").is_none());

    // Load back and verify correct row alignment
    let loaded = load_sidecar(Some(&written), &rows).unwrap();
    assert_eq!(
        loaded.formula_for_cell(0, "score").map(|s| s.as_str()),
        Some("age * 2")
    );
    assert_eq!(
        loaded.formula_for_cell(1, "score").map(|s| s.as_str()),
        Some("age * 3")
    );
    assert_eq!(
        loaded.cell_style(0, "name").and_then(|s| s.color.clone()),
        Some("#ff0000".to_string())
    );
}

#[test]
fn test_row_key_survives_row_reorder() {
    let rows: TableData = vec![
        row(vec![("id", whole(1)), ("val", whole(10))]),
        row(vec![("id", whole(2)), ("val", whole(20))]),
    ];

    let mut meta = JSheetMeta::default();
    meta.set_row_key(Some("id".to_string()));
    assert!(meta.set_formula_for_cell(0, "doubled", "val * 2".to_string()));
    assert!(meta.set_formula_for_cell(1, "doubled", "val * 3".to_string()));
    let written = save_sidecar(&meta, &rows);

    // Simulate row reorder: swap rows in JSON
    let reordered: TableData = vec![rows[1].copy_of(), rows[0].copy_of()];

    // Load with reordered data — formulas should follow their keyed rows
    let loaded = load_sidecar(Some(&written), &reordered).unwrap();
    // id=2 is now at index 0, had formula "val * 3"
    assert_eq!(
        loaded.formula_for_cell(0, "doubled").map(|s| s.as_str()),
        Some("val * 3")
    );
    // id=1 is now at index 1, had formula "val * 2"
    assert_eq!(
        loaded.formula_for_cell(1, "doubled").map(|s| s.as_str()),
        Some("val * 2")
    );
}

#[test]
fn test_column_order_stored_and_loaded() {
    let rows = sample_rows();

    let mut meta = JSheetMeta::default();
    meta.set_column_order(vec!["age".to_string(), "name".to_string()]);
    let written = save_sidecar(&meta, &rows);

    let loaded = load_sidecar(Some(&written), &rows).unwrap();
    assert_eq!(loaded.column_order, vec!["age", "name"]);
}

#[test]
fn test_column_order_affects_display_columns() {
    let rows: TableData = vec![row(vec![("c", whole(1)), ("a", whole(2)), ("b", whole(3))])];

    // Without column_order: alphabetical
    let meta_default = JSheetMeta::default();
    let cols = meta_default.display_columns(&rows);
    assert_eq!(cols, vec!["a", "b", "c"]);

    // With column_order: respects order, appends new
    let mut meta_ordered = JSheetMeta::default();
    meta_ordered.set_column_order(vec!["c".to_string(), "a".to_string()]);
    let cols = meta_ordered.display_columns(&rows);
    assert_eq!(cols, vec!["c", "a", "b"]); // b appended
}

#[test]
fn test_auto_detect_row_key() {
    let rows: TableData = vec![
        row(vec![("id", whole(1)), ("name", text("Alice"))]),
        row(vec![("id", whole(2)), ("name", text("Bob"))]),
    ];

    let mut meta = JSheetMeta::default();
    meta.auto_detect_row_key(&rows);
    // "id" comes first alphabetically and has unique values
    assert_eq!(meta.row_key().map(|s| s.as_str()), Some("id"));
}

#[test]
fn test_sidecar_text_layout() {
    let rows: TableData = vec![row(vec![("id", whole(1))])];
    assert_eq!(
        sidecar_to_text(&empty_file()),
        "{\n  \"columns\": {},\n  \"comment_columns\": [],\n  \"summaries\": {}\n}"
    );
    let mut meta = JSheetMeta::default();
    meta.set_row_key(Some("id".to_string()));
    meta.set_column_type("id", Some(ColumnType::Number));
    meta.set_column_order(vec!["id".to_string()]);
    meta.set_comment_column("note", true);
    meta.set_summary_kind("id", Some(jsonsheet::jsheet::SummaryKind::Avg));
    assert!(meta.set_formula_for_cell(0, "f", "=id".to_string()));
    meta.set_cell_style(0, "id", None, Some("blue".to_string()));
    meta.comment_rows = vec![row(vec![("note", text("kept"))])];
    meta.add_conditional_format(jsonsheet::jsheet::ConditionalFormat {
        column: "id".to_string(),
        rule: "> 0".to_string(),
        style: ColumnStyle {
            color: Some("red".to_string()),
            background: None,
        },
    });
    meta.set_validation_rule(
        "id",
        Some(jsonsheet::jsheet::ValidationRule {
            min: Some(Number::parse("0.5").unwrap()),
            max: None,
            enum_values: Some(vec!["a".to_string()]),
        }),
    );
    meta.set_frozen_columns(Some(3));
    let written = save_sidecar(&meta, &rows);
    let expected = r#"{
  "columns": {
    "id": {
      "type": "number"
    }
  },
  "column_order": [
    "id"
  ],
  "row_key": "id",
  "comment_columns": [
    "note"
  ],
  "summaries": {
    "id": "AVG"
  },
  "keyed_cell_formulas": {
    "1": {
      "f": "id"
    }
  },
  "keyed_cell_styles": {
    "1": {
      "id": {
        "background": "blue"
      }
    }
  },
  "keyed_comment_rows": {
    "1": {
      "note": "kept"
    }
  },
  "conditional_formats": [
    {
      "column": "id",
      "rule": "> 0",
      "style": {
        "color": "red"
      }
    }
  ],
  "validation": {
    "id": {
      "min": 0.5,
      "enum_values": [
        "a"
      ]
    }
  },
  "frozen_columns": 3
}"#;
    assert_eq!(written, expected);
    let loaded = load_sidecar(Some(&written), &rows).unwrap();
    assert!(loaded.same_as(&meta));
    let file = sidecar_from_text(&written).unwrap();
    assert!(file.same_as(&JSheetFile::from_meta(&meta, &rows)));
}

#[test]
fn test_sidecar_reading_is_lenient_about_what_is_missing_only() {
    let rows = sample_rows();
    assert!(load_sidecar(Some("{}"), &rows).unwrap().same_as(&JSheetMeta::new()));
    assert!(load_sidecar(Some("{\"unknown\": [1, 2], \"row_key\": null}"), &rows)
        .unwrap()
        .same_as(&JSheetMeta::new()));
    let style = load_sidecar(
        Some("{\"cell_styles\": [{\"a\": {\"color\": null, \"background\": \"x\"}}]}"),
        &rows,
    )
    .unwrap();
    assert_eq!(
        style.cell_style(0, "a"),
        Some(&ColumnStyle {
            color: None,
            background: Some("x".to_string())
        })
    );
    for bad in [
        "",
        "[]",
        "not json",
        "{\"columns\": null}",
        "{\"columns\": {\"a\": {}}}",
        "{\"columns\": {\"a\": {\"type\": \"text\"}}}",
        "{\"column_order\": [1]}",
        "{\"row_key\": 1}",
        "{\"comment_columns\": {\"a\": 1}}",
        "{\"summaries\": {\"a\": \"sum\"}}",
        "{\"cell_formulas\": [{\"a\": 1}]}",
        "{\"cell_styles\": [{\"a\": {\"color\": 1}}]}",
        "{\"comment_rows\": [[]]}",
        "{\"keyed_cell_formulas\": []}",
        "{\"conditional_formats\": [{\"column\": \"a\"}]}",
        "{\"validation\": {\"a\": {\"min\": \"1\"}}}",
        "{\"validation\": {\"a\": {\"enum_values\": [1]}}}",
        "{\"frozen_columns\": -1}",
        "{\"frozen_columns\": 1.5}",
    ] {
        assert!(
            matches!(load_sidecar(Some(bad), &rows), Err(JSheetIoError::Parse(_))),
            "{bad}"
        );
    }
}
