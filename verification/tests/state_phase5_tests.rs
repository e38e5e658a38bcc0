use jsonsheet::coercion::ParsedCondRule;
use jsonsheet::data_model::{Row, TableData};
use jsonsheet::jsheet::{
    ColumnStyle, ColumnType, ConditionalFormat, JSheetMeta, SummaryKind, ValidationRule,
};
use jsonsheet::jsheet_io::{load_sidecar, save_sidecar};
use jsonsheet::number::Number;
use jsonsheet::strmap::StrMap;
use jsonsheet::table_state::{CellEdit, CellEditKind, TableState};
use jsonsheet::value::Value;

fn row(members: Vec<(&str, Value)>) -> Row {
    let mut out: Row = StrMap::new();
    for (name, value) in members {
        out.insert(name.to_string(), value);
    }
    out
}

fn whole(n: i64) -> Value {
    Value::Number(Number::from_i64(n))
}

fn text(s: &str) -> Value {
    Value::String(s.to_string())
}

fn decimal(s: &str) -> Number {
    Number::parse(s).unwrap()
}

fn sample_state() -> TableState {
    TableState::from_data(vec![
        row(vec![("name", text("Alice")), ("age", whole(30))]),
        row(vec![("name", text("Bob")), ("age", whole(25))]),
    ])
}

#[test]
fn test_type_constraint_blocks_invalid_input() {
    let mut state = sample_state();
    state.set_column_type("age", Some(ColumnType::Number));

    assert!(!state.set_cell_from_input(0, "age", "not_a_number"));
    assert_eq!(state.data()[0].get("age"), Some(&whole(30)));
}

#[test]
fn test_type_constraint_coerces_valid_input() {
    let mut state = sample_state();
    state.set_column_type("age", Some(ColumnType::Number));

    assert!(state.set_cell_from_input(0, "age", "42"));
    assert_eq!(state.data()[0].get("age"), Some(&whole(42)));
}

#[test]
fn test_cell_formula_display_and_export_baked_by_default() {
    let mut state = sample_state();
    assert!(state.add_column("age2"));
    assert!(state.set_cell_formula(0, "age2", "=age * 2".to_string()));
    assert!(state.set_cell_formula(1, "age2", "=age * 2".to_string()));

    assert_eq!(state.cell_display_value(0, "age2"), "60");
    assert_eq!(state.cell_display_value(1, "age2"), "50");

    let exported = state.export_json_data().unwrap();
    assert_eq!(exported[0].get("age2"), Some(&whole(60)));
    assert_eq!(exported[1].get("age2"), Some(&whole(50)));
}

#[test]
fn test_summary_values_for_base_and_formula_columns() {
    let mut state = sample_state();
    assert!(state.add_column("age2"));
    assert!(state.set_cell_formula(0, "age2", "=age * 2".to_string()));
    assert!(state.set_cell_formula(1, "age2", "=age * 2".to_string()));
    state.set_summary_kind("age", Some(SummaryKind::Avg));
    state.set_summary_kind("age2", Some(SummaryKind::Sum));

    assert_eq!(
        state.summary_display_for_column("age"),
        Some("27.5".to_string())
    );
    assert_eq!(
        state.summary_display_for_column("age2"),
        Some("110".to_string())
    );
}

#[test]
fn test_cell_style_inline_output() {
    let mut state = sample_state();
    state.set_cell_style(
        0,
        "age",
        Some("#aa0000".to_string()),
        Some("#f0f0f0".to_string()),
    );

    let style = state.cell_style(0, "age").unwrap_or_default();
    assert_eq!(style.color.as_deref(), Some("#aa0000"));
    assert_eq!(style.background.as_deref(), Some("#f0f0f0"));

    let inline = state.cell_inline_style(0, "age");
    assert!(inline.contains("color: #aa0000;"));
    assert!(inline.contains("background-color: #f0f0f0;"));
}

#[test]
fn test_comment_column_excluded_from_export_json() {
    let mut state = sample_state();
    assert!(state.add_column("note"));
    assert!(state.set_cell_from_input(0, "note", "keep in jsheet only"));
    state.set_comment_column("note", true);

    let exported = state.export_json_data().unwrap();
    assert!(!exported[0].contains_key("note"));
    assert!(!exported[1].contains_key("note"));
}

#[test]
fn test_comment_rows_are_captured_for_sidecar_save() {
    let mut state = sample_state();
    assert!(state.add_column("note"));
    assert!(state.set_cell_from_input(0, "note", "internal"));
    state.set_comment_column("note", true);

    let meta = state.jsheet_meta_for_save();
    assert!(meta.comment_columns.contains("note"));
    assert_eq!(meta.comment_rows[0].get("note"), Some(&text("internal")));
}

#[test]
fn test_set_cell_formula_accepts_excel_style_formula_input() {
    let mut state = sample_state();
    assert!(state.add_column("age2"));
    assert!(state.set_cell_formula(0, "age2", "=age * 2".to_string()));
    assert_eq!(state.cell_display_value(0, "age2"), "60");
}

#[test]
fn test_cell_formula_takes_priority_over_existing_json_value() {
    let mut state = sample_state();
    assert!(state.add_column("age2"));
    assert!(state.set_cell_from_input(0, "age2", "1"));
    assert!(state.set_cell_formula(0, "age2", "=age * 2".to_string()));

    assert_eq!(state.cell_display_value(0, "age2"), "60");
    let exported = state.export_json_data().unwrap();
    assert_eq!(exported[0].get("age2"), Some(&whole(60)));
}

#[test]
fn test_sort_keeps_row_bound_formula_metadata() {
    let mut state = sample_state();
    assert!(state.add_column("score"));
    assert!(state.set_cell_formula(0, "score", "=age + 100".to_string()));
    assert!(state.set_cell_formula(1, "score", "=age + 200".to_string()));

    assert!(state.sort_by_column_toggle("age"));

    assert_eq!(state.cell_display_value(0, "name"), "Bob");
    assert_eq!(state.cell_display_value(0, "score"), "225");
    assert_eq!(state.cell_display_value(1, "name"), "Alice");
    assert_eq!(state.cell_display_value(1, "score"), "130");
}

#[test]
fn test_parsed_cond_rule_numeric_operators() {
    let rule_lt = ParsedCondRule::parse("< 100").unwrap();
    assert!(rule_lt.matches(&whole(50)));
    assert!(!rule_lt.matches(&whole(100)));
    assert!(!rule_lt.matches(&whole(200)));

    let rule_ge = ParsedCondRule::parse(">= 25").unwrap();
    assert!(rule_ge.matches(&whole(25)));
    assert!(rule_ge.matches(&whole(30)));
    assert!(!rule_ge.matches(&whole(24)));

    let rule_eq = ParsedCondRule::parse("== 42").unwrap();
    assert!(rule_eq.matches(&whole(42)));
    assert!(!rule_eq.matches(&whole(43)));

    let rule_ne = ParsedCondRule::parse("!= 0").unwrap();
    assert!(rule_ne.matches(&whole(1)));
    assert!(!rule_ne.matches(&whole(0)));
}

#[test]
fn test_parsed_cond_rule_string_comparison() {
    let rule = ParsedCondRule::parse("== legendary").unwrap();
    assert!(rule.matches(&text("legendary")));
    assert!(rule.matches(&text("Legendary"))); // case insensitive
    assert!(!rule.matches(&text("rare")));
}

#[test]
fn test_parsed_cond_rule_invalid_syntax() {
    assert!(ParsedCondRule::parse("").is_none());
    assert!(ParsedCondRule::parse("abc").is_none());
    assert!(ParsedCondRule::parse("< ").is_none());
    assert!(ParsedCondRule::parse("<").is_none());
}

#[test]
fn test_conditional_format_affects_cell_style_inline() {
    let mut state = sample_state();
    state.add_conditional_format(ConditionalFormat {
        column: "age".to_string(),
        rule: "< 30".to_string(),
        style: ColumnStyle {
            color: Some("#ff0000".to_string()),
            background: None,
        },
    });

    // age=30 does not match "< 30"
    let inline_0 = state.cell_inline_style(0, "age");
    assert!(!inline_0.contains("#ff0000"));

    // age=25 matches "< 30"
    let inline_1 = state.cell_inline_style(1, "age");
    assert!(inline_1.contains("color: #ff0000;"));
}

#[test]
fn test_cell_style_overrides_conditional_format() {
    let mut state = sample_state();
    state.add_conditional_format(ConditionalFormat {
        column: "age".to_string(),
        rule: "< 30".to_string(),
        style: ColumnStyle {
            color: Some("#ff0000".to_string()),
            background: None,
        },
    });
    // Set explicit cell style on row 1 (age=25, matches rule)
    state.set_cell_style(1, "age", Some("#00ff00".to_string()), None);

    let inline = state.cell_inline_style(1, "age");
    // Cell style (#00ff00) should override conditional format (#ff0000)
    assert!(inline.contains("color: #00ff00;"));
    assert!(!inline.contains("#ff0000"));
}

#[test]
fn test_remove_conditional_format() {
    let mut state = sample_state();
    state.add_conditional_format(ConditionalFormat {
        column: "age".to_string(),
        rule: "< 30".to_string(),
        style: ColumnStyle {
            color: Some("#ff0000".to_string()),
            background: None,
        },
    });
    assert_eq!(state.conditional_formats().len(), 1);
    assert!(state.remove_conditional_format(0));
    assert_eq!(state.conditional_formats().len(), 0);

    // After removal, no conditional style applied
    let inline = state.cell_inline_style(1, "age");
    assert!(inline.is_empty());
}

#[test]
fn test_conditional_format_roundtrip_via_sidecar() {
    let rows: TableData = vec![
        row(vec![("id", whole(1)), ("hp", whole(50))]),
        row(vec![("id", whole(2)), ("hp", whole(200))]),
    ];

    let mut meta = JSheetMeta::default();
    meta.add_conditional_format(ConditionalFormat {
        column: "hp".to_string(),
        rule: "< 100".to_string(),
        style: ColumnStyle {
            color: Some("#ff0000".to_string()),
            background: None,
        },
    });
    let written = save_sidecar(&meta, &rows);

    let loaded = load_sidecar(Some(&written), &rows).unwrap();
    assert_eq!(loaded.conditional_formats.len(), 1);
    assert_eq!(loaded.conditional_formats[0].column, "hp");
    assert_eq!(loaded.conditional_formats[0].rule, "< 100");
}

#[test]
fn test_validation_min_max_blocks_out_of_range() {
    let mut state = sample_state();
    state.set_column_type("age", Some(ColumnType::Number));
    state.set_validation_rule(
        "age",
        Some(ValidationRule {
            min: Some(decimal("0.0")),
            max: Some(decimal("100.0")),
            ..Default::default()
        }),
    );

    // Within range: should succeed
    assert!(state.set_cell_from_input(0, "age", "50"));
    assert_eq!(state.data()[0].get("age"), Some(&whole(50)));

    // Below min: should fail
    assert!(!state.set_cell_from_input(0, "age", "-1"));
    assert_eq!(state.data()[0].get("age"), Some(&whole(50)));

    // Above max: should fail
    assert!(!state.set_cell_from_input(0, "age", "101"));
    assert_eq!(state.data()[0].get("age"), Some(&whole(50)));

    // Boundary: min and max should succeed
    assert!(state.set_cell_from_input(0, "age", "0"));
    assert!(state.set_cell_from_input(0, "age", "100"));
}

#[test]
fn test_validation_enum_blocks_invalid_value() {
    let mut state = sample_state();
    state.set_validation_rule(
        "name",
        Some(ValidationRule {
            enum_values: Some(vec![
                "Alice".to_string(),
                "Bob".to_string(),
                "Charlie".to_string(),
            ]),
            ..Default::default()
        }),
    );

    // Valid enum value: should succeed
    assert!(state.set_cell_from_input(0, "name", "Charlie"));
    assert_eq!(state.data()[0].get("name"), Some(&text("Charlie")));

    // Invalid enum value: should fail
    assert!(!state.set_cell_from_input(0, "name", "Dave"));
    assert_eq!(state.data()[0].get("name"), Some(&text("Charlie")));

    // Case insensitive match
    assert!(state.set_cell_from_input(0, "name", "alice"));
}

#[test]
fn test_validation_enum_allows_null() {
    let mut state = sample_state();
    assert!(state.add_column("rarity"));
    state.set_validation_rule(
        "rarity",
        Some(ValidationRule {
            enum_values: Some(vec!["common".to_string(), "rare".to_string()]),
            ..Default::default()
        }),
    );

    // Move away from default null first so the next set operation is a real change.
    assert!(state.set_cell_from_input(0, "rarity", "common"));

    // Null values should be allowed even with enum constraint
    assert!(state.set_cell_from_input(0, "rarity", "null"));
}

#[test]
fn test_validation_rule_removed_with_column() {
    let mut state = sample_state();
    state.set_validation_rule(
        "age",
        Some(ValidationRule {
            min: Some(decimal("0.0")),
            ..Default::default()
        }),
    );
    assert!(state.validation_rule("age").is_some());
    assert!(state.delete_column("age"));
    assert!(state.validation_rule("age").is_none());
}

#[test]
fn test_validation_rule() {
    let rule = ValidationRule {
        min: Some(decimal("10.0")),
        max: Some(decimal("50.0")),
        enum_values: None,
    };
    assert!(rule.validate(&whole(10)));
    assert!(rule.validate(&whole(50)));
    assert!(rule.validate(&whole(30)));
    assert!(!rule.validate(&whole(9)));
    assert!(!rule.validate(&whole(51)));
}

#[test]
fn test_frozen_columns_getter_setter() {
    let mut state = sample_state();
    assert_eq!(state.frozen_columns(), 0);
    state.set_frozen_columns(Some(2));
    assert_eq!(state.frozen_columns(), 2);
    state.set_frozen_columns(Some(0));
    assert_eq!(state.frozen_columns(), 0);
    state.set_frozen_columns(None);
    assert_eq!(state.frozen_columns(), 0);
}

#[test]
fn test_validation_roundtrip_via_sidecar() {
    let rows: TableData = vec![row(vec![
        ("id", whole(1)),
        ("hp", whole(50)),
        ("rarity", text("common")),
    ])];

    let mut meta = JSheetMeta::default();
    meta.set_validation_rule(
        "hp",
        Some(ValidationRule {
            min: Some(decimal("0.0")),
            max: Some(decimal("9999.0")),
            ..Default::default()
        }),
    );
    meta.set_validation_rule(
        "rarity",
        Some(ValidationRule {
            enum_values: Some(vec![
                "common".to_string(),
                "rare".to_string(),
                "epic".to_string(),
            ]),
            ..Default::default()
        }),
    );
    meta.set_frozen_columns(Some(2));

    let written = save_sidecar(&meta, &rows);

    let loaded = load_sidecar(Some(&written), &rows).unwrap();
    let hp_rule = loaded.validation.get("hp").unwrap();
    assert_eq!(hp_rule.min, Some(decimal("0.0")));
    assert_eq!(hp_rule.max, Some(decimal("9999.0")));
    assert!(hp_rule.enum_values.is_none());

    let rarity_rule = loaded.validation.get("rarity").unwrap();
    assert!(rarity_rule.min.is_none());
    assert!(rarity_rule.max.is_none());
    assert_eq!(
        rarity_rule.enum_values.as_ref().unwrap(),
        &vec!["common".to_string(), "rare".to_string(), "epic".to_string()]
    );

    assert_eq!(loaded.frozen_columns, Some(2));
}

#[test]
fn test_apply_cell_edits_batches_into_single_undo_snapshot() {
    let mut state = sample_state();
    let changed = state.apply_cell_edits(vec![
        CellEdit {
            row_index: 0,
            column: "age".to_string(),
            kind: CellEditKind::Value(whole(40)),
        },
        CellEdit {
            row_index: 1,
            column: "age".to_string(),
            kind: CellEditKind::Value(whole(35)),
        },
    ]);

    assert_eq!(changed, 2);
    assert_eq!(state.data()[0].get("age"), Some(&whole(40)));
    assert_eq!(state.data()[1].get("age"), Some(&whole(35)));

    assert!(state.undo());
    assert_eq!(state.data()[0].get("age"), Some(&whole(30)));
    assert_eq!(state.data()[1].get("age"), Some(&whole(25)));
}

#[test]
fn test_apply_cell_edits_value_replaces_existing_formula() {
    let mut state = sample_state();
    assert!(state.add_column("age2"));
    assert!(state.set_cell_formula(0, "age2", "=age * 2".to_string()));
    assert_eq!(state.cell_display_value(0, "age2"), "60");

    let changed = state.apply_cell_edits(vec![CellEdit {
        row_index: 0,
        column: "age2".to_string(),
        kind: CellEditKind::Value(whole(999)),
    }]);
    assert_eq!(changed, 1);
    assert!(state.cell_formula(0, "age2").is_none());
    assert_eq!(state.cell_display_value(0, "age2"), "999");
}

#[test]
fn test_apply_cell_edits_formula_write() {
    let mut state = sample_state();
    assert!(state.add_column("score"));
    let changed = state.apply_cell_edits(vec![CellEdit {
        row_index: 1,
        column: "score".to_string(),
        kind: CellEditKind::Formula("=age + 10".to_string()),
    }]);

    assert_eq!(changed, 1);
    assert_eq!(state.cell_formula(1, "score").as_deref(), Some("age + 10"));
    assert_eq!(state.cell_display_value(1, "score"), "35");
}

#[test]
fn test_apply_cell_edits_respects_validation_rules() {
    let mut state = sample_state();
    state.set_validation_rule(
        "name",
        Some(ValidationRule {
            enum_values: Some(vec!["Alice".to_string(), "Bob".to_string()]),
            ..Default::default()
        }),
    );

    let changed = state.apply_cell_edits(vec![CellEdit {
        row_index: 0,
        column: "name".to_string(),
        kind: CellEditKind::Value(text("Charlie")),
    }]);

    assert_eq!(changed, 0);
    assert_eq!(state.data()[0].get("name"), Some(&text("Alice")));
}

#[test]
fn test_formula_supports_bracket_identifiers_for_non_ascii_columns() {
    let mut state = TableState::from_data(vec![row(vec![
        ("總分", whole(40)),
        ("加成 值", whole(2)),
    ])]);
    assert!(state.add_column("結果"));
    assert!(state.set_cell_formula(0, "結果", "=[總分] + [加成 值]".to_string()));
    assert_eq!(state.cell_display_value(0, "結果"), "42");
}

#[test]
fn test_formula_rejects_unterminated_bracket_identifier() {
    let mut state = sample_state();
    assert!(state.add_column("score"));
    assert!(!state.set_cell_formula(0, "score", "=[age + 1".to_string()));
}

#[test]
fn test_fixture_sidecar_cell_formula_is_loaded() {
    let data = r#"[
  {"name": "Alice", "age": 30, "active": true, "tags": ["a", "b"]},
  {"name": "Bob", "age": 25, "active": false, "tags": []}
]"#;
    let sidecar = r#"{
  "columns": {},
  "comment_columns": [],
  "summaries": {},
  "cell_formulas": [
    { "age2": "age * 2" },
    { "age2": "age * 2" }
  ]
}"#;
    let rows = jsonsheet::json_io::load_rows(data).unwrap();
    let meta = load_sidecar(Some(sidecar), &rows).unwrap();
    let state = TableState::from_data_and_jsheet(rows, meta);

    assert_eq!(state.cell_display_value(0, "age2"), "60");
    assert_eq!(state.cell_display_value(1, "age2"), "50");
}
