use jsonsheet::data_model::{Row, TableData};
use jsonsheet::export::ExportError;
use jsonsheet::formula::{normalize_formula, parse_formula, validate_formula, FormulaError};
use jsonsheet::jsheet::{
    ColumnConstraint, ColumnStyle, ColumnType, ConditionalFormat, JSheetMeta, SummaryKind,
    ValidationRule,
};
use jsonsheet::jsheet_io::JSheetFile;
use jsonsheet::json_io::{decode, load_rows, rows_from_json, rows_to_json, value_from_text, JsonFault};
use jsonsheet::model::Model;
use jsonsheet::number::Number;
use jsonsheet::strmap::{StrMap, StrSet};
use jsonsheet::table_state::{CellEdit, CellEditKind, SortOrder, TableState};
use jsonsheet::text::{trimmed, Relation};
use jsonsheet::value::{
    compare_values, display_value, parse_cell_input, to_compact_text, value_to_key_string, Value,
};

fn row(members: Vec<(&str, Value)>) -> Row {
    let mut out: Row = StrMap::new();
    for (name, value) in members {
        out.insert(name.to_string(), value);
    }
    out
}

fn whole(n: i64) -> Value {
    Value::Number(Number::from_i64(n))
}

fn text(s: &str) -> Value {
    Value::String(s.to_string())
}

fn num(s: &str) -> Number {
    Number::parse(s).unwrap()
}

fn one_row_state() -> TableState {
    TableState::from_data(vec![row(vec![("a", whole(1)), ("b", whole(2))])])
}

fn formula_value(formula: &str) -> Option<Value> {
    let mut state = one_row_state();
    assert!(state.add_column("f"));
    assert!(state.set_cell_formula(0, "f", formula.to_string()));
    state.cell_value(0, "f")
}

#[test]
fn number_reads_and_writes_decimals() {
    assert_eq!(num("27.5").to_text(), "27.5");
    assert_eq!(num("-0").to_text(), "0");
    assert_eq!(num("+3.140").to_text(), "3.14");
    assert_eq!(num(".5").to_text(), "0.5");
    assert_eq!(num("5.").to_text(), "5");
    assert_eq!(num("007").to_text(), "7");
    assert_eq!(num("-12.000000000000000001").to_text(), "-12.000000000000000001");
    assert_eq!(num("0.1234567890123456789").to_text(), "0.123456789012345678");
    assert_eq!(num("18446744073709551615").to_text(), "18446744073709551615");
    assert_eq!(Number::parse("18446744073709551616"), None);
    assert_eq!(Number::parse(""), None);
    assert_eq!(Number::parse("."), None);
    assert_eq!(Number::parse("-"), None);
    assert_eq!(Number::parse("abc"), None);
    assert_eq!(Number::parse("1.2.3"), None);
    assert_eq!(Number::parse(" 1"), None);
    assert_eq!(Number::parse("--1"), None);
}

#[test]
fn number_reads_exponents() {
    assert_eq!(num("1e-6").to_text(), "0.000001");
    assert_eq!(num("1.5e3").to_text(), "1500");
    assert_eq!(num("1.5E+3").to_text(), "1500");
    assert_eq!(num("125e-2").to_text(), "1.25");
    assert_eq!(num("0.5e1").to_text(), "5");
    assert_eq!(num("1e19").to_text(), "10000000000000000000");
    assert_eq!(num("0e999").to_text(), "0");
    assert_eq!(num("1e-19").to_text(), "0");
    assert_eq!(Number::parse("1e20"), None);
    assert_eq!(Number::parse("1e"), None);
    assert_eq!(Number::parse("1e+"), None);
    assert_eq!(Number::parse("1e1000"), None);
    assert_eq!(Number::parse("e5"), None);
    assert_eq!(Number::parse("1e5e5"), None);
}

#[test]
fn number_arithmetic_is_exact() {
    assert_eq!(num("0.1").plus(&num("0.2")), Some(num("0.3")));
    assert_eq!(num("1").minus(&num("2.5")), Some(num("-1.5")));
    assert_eq!(num("-1.5").times(&num("-2")), Some(num("3")));
    assert_eq!(num("1.1").times(&num("1.1")), Some(num("1.21")));
    assert_eq!(
        num("0.000000001").times(&num("0.000000001")),
        Some(num("0.000000000000000001"))
    );
    assert_eq!(num("0.000000001").times(&num("0.0000000001")), Some(num("0")));
    assert_eq!(
        num("1").divided_by(&num("3")),
        Some(num("0.333333333333333333"))
    );
    assert_eq!(num("-7").divided_by(&num("2")), Some(num("-3.5")));
    assert_eq!(num("1").divided_by(&num("0")), None);
    assert_eq!(num("1").divided_by(&num("0.000000000000000001")), Some(num("1e18")));
    assert_eq!(num("100").divided_by(&num("0.000000000000000001")), None);
    assert_eq!(
        num("18446744073709551615").plus(&num("1")),
        None
    );
    assert_eq!(num("4294967296").times(&num("4294967296")), None);
    assert_eq!(
        num("4294967296").times(&num("4294967295")),
        Some(num("18446744069414584320"))
    );
    assert_eq!(num("5").negated(), num("-5"));
    assert_eq!(num("0").negated(), num("0"));
}

#[test]
fn number_rounds_and_orders() {
    assert_eq!(num("27.4999996").rounded(), Some(num("27.5")));
    assert_eq!(num("27.4999994").rounded(), Some(num("27.499999")));
    assert_eq!(num("-0.0000005").rounded(), Some(num("-0.000001")));
    assert_eq!(num("-0.0000004").rounded(), Some(num("0")));
    assert_eq!(num("18446744073709551615.9999996").rounded(), None);
    assert_eq!(num("1").relate(&num("2")), Relation::Before);
    assert_eq!(num("2").relate(&num("2.0")), Relation::Same);
    assert_eq!(num("-1").relate(&num("-2")), Relation::After);
    assert_eq!(num("-1").relate(&num("1")), Relation::Before);
    assert_eq!(
        num("9007199254740993").relate(&num("9007199254740992")),
        Relation::After
    );
}

#[test]
fn number_knows_its_integers() {
    assert_eq!(num("42").as_i64(), Some(42));
    assert_eq!(num("-9223372036854775808").as_i64(), Some(i64::MIN));
    assert_eq!(num("9223372036854775807").as_i64(), Some(i64::MAX));
    assert_eq!(num("9223372036854775808").as_i64(), None);
    assert_eq!(num("9223372036854775808").as_u64(), Some(9223372036854775808));
    assert_eq!(num("-1").as_u64(), None);
    assert_eq!(num("1.5").as_i64(), None);
    assert!(num("3").is_integer());
    assert!(!num("3.000000000000000001").is_integer());
    assert_eq!(Number::from_i64(-7), num("-7"));
    assert_eq!(Number::from_u64(u64::MAX), num("18446744073709551615"));
    assert_eq!(Number::from_bool(true), num("1"));
    assert_eq!(Number::from_bool(false), num("0"));
}

#[test]
fn formulas_compute() {
    assert_eq!(formula_value("=2+3*4"), Some(whole(14)));
    assert_eq!(formula_value("=1/0"), Some(Value::Null));
    assert_eq!(formula_value("=\"x\" + 1"), Some(text("x1")));
    assert_eq!(formula_value("(2+3)*4"), Some(whole(20)));
    assert_eq!(formula_value("= 10 - 4 - 3"), Some(whole(3)));
    assert_eq!(formula_value("=8/4/2"), Some(whole(1)));
    assert_eq!(formula_value("=-a"), Some(whole(-1)));
    assert_eq!(formula_value("=--a"), Some(whole(1)));
    assert_eq!(formula_value("=-\"x\""), Some(Value::Null));
    assert_eq!(formula_value("=a + b"), Some(whole(3)));
    assert_eq!(formula_value("=a / b"), Some(Value::Number(num("0.5"))));
    assert_eq!(formula_value("=missing"), Some(Value::Null));
    assert_eq!(formula_value("=missing + 1"), Some(text("1")));
    assert_eq!(formula_value("=missing * 2"), Some(Value::Null));
    assert_eq!(formula_value("=\"2\" * \"3\""), Some(whole(6)));
    assert_eq!(formula_value("=\" 2 \" + 1"), Some(whole(3)));
    assert_eq!(formula_value("=\"a\\tb\\n\\\"c\\\\\""), Some(text("a\tb\n\"c\\")));
    assert_eq!(formula_value("=1.5+.5"), Some(whole(2)));
    assert_eq!(formula_value("=[a] + [b]"), Some(whole(3)));
    assert_eq!(
        formula_value("=18446744073709551615 + 1"),
        Some(Value::Null)
    );
}

#[test]
fn formula_errors_are_told_apart() {
    assert_eq!(parse_formula("").err(), Some(FormulaError::Empty));
    assert_eq!(parse_formula("   ").err(), Some(FormulaError::Empty));
    assert_eq!(parse_formula("1 ? 2").err(), Some(FormulaError::UnexpectedCharacter));
    assert_eq!(parse_formula("=1").err(), Some(FormulaError::UnexpectedCharacter));
    assert_eq!(parse_formula("1.2.3").err(), Some(FormulaError::InvalidNumber));
    assert_eq!(parse_formula(".").err(), Some(FormulaError::InvalidNumber));
    assert_eq!(
        parse_formula("99999999999999999999").err(),
        Some(FormulaError::InvalidNumber)
    );
    assert_eq!(parse_formula("\"abc").err(), Some(FormulaError::UnterminatedString));
    assert_eq!(parse_formula("\"abc\\").err(), Some(FormulaError::UnterminatedString));
    assert_eq!(parse_formula("[abc").err(), Some(FormulaError::UnterminatedBracket));
    assert_eq!(parse_formula("1 +").err(), Some(FormulaError::ExpectedExpression));
    assert_eq!(parse_formula("* 2").err(), Some(FormulaError::ExpectedExpression));
    assert_eq!(parse_formula("()").err(), Some(FormulaError::ExpectedExpression));
    assert_eq!(parse_formula("(1 + 2").err(), Some(FormulaError::MissingParenthesis));
    assert_eq!(parse_formula("1 2").err(), Some(FormulaError::TrailingTokens));
    assert_eq!(parse_formula("(1))").err(), Some(FormulaError::TrailingTokens));
    assert!(parse_formula("a_1 + (b * -3) / \"x\"").is_ok());
}

#[test]
fn formulas_are_normalized() {
    assert_eq!(normalize_formula("  = a + 1  "), Some("a + 1".to_string()));
    assert_eq!(normalize_formula("a"), Some("a".to_string()));
    assert_eq!(normalize_formula("=="), Some("=".to_string()));
    assert_eq!(normalize_formula("="), None);
    assert_eq!(normalize_formula("   "), None);
    assert!(validate_formula("=1+1"));
    assert!(!validate_formula("==1"));
    assert!(!validate_formula(""));
    assert!(!validate_formula("=1+"));
}

#[test]
fn a_rejected_formula_changes_nothing() {
    let mut state = one_row_state();
    let before = state.copy_of();
    assert!(!state.set_cell_formula(0, "a", "=1 +".to_string()));
    assert!(!state.set_cell_formula(0, "a", "".to_string()));
    assert!(!state.set_cell_formula(0, "  ", "=1".to_string()));
    assert!(!state.set_cell_formula(5, "a", "=1".to_string()));
    assert!(state.same_as(&before));
    assert!(state.set_cell_formula(0, "a", "=1".to_string()));
    assert!(!state.set_cell_formula(0, "a", " = 1 ".to_string()));
}

#[test]
fn cycles_come_to_null() {
    let mut state = one_row_state();
    assert!(state.set_cell_formula(0, "a", "=b".to_string()));
    assert!(state.set_cell_formula(0, "b", "=a".to_string()));
    for _ in 0..3 {
        assert_eq!(state.cell_value(0, "a"), Some(Value::Null));
        assert_eq!(state.cell_value(0, "b"), Some(Value::Null));
    }
    assert!(state.set_cell_formula(0, "a", "=a".to_string()));
    assert_eq!(state.cell_value(0, "a"), Some(Value::Null));
    assert!(state.set_cell_formula(0, "a", "=-(b * 2) - 1".to_string()));
    assert!(state.set_cell_formula(0, "b", "=3 / a".to_string()));
    assert_eq!(state.cell_value(0, "a"), Some(Value::Null));
    assert_eq!(state.cell_value(0, "b"), Some(Value::Null));
}

#[test]
fn a_cycle_through_plus_joins_texts() {
    let mut state = one_row_state();
    assert!(state.set_cell_formula(0, "a", "=b + 1".to_string()));
    assert!(state.set_cell_formula(0, "b", "=a".to_string()));
    assert_eq!(state.cell_value(0, "a"), Some(text("1")));
    assert_eq!(state.cell_value(0, "b"), Some(text("1")));
}

#[test]
fn a_formula_is_computed_anew_at_each_reference() {
    let mut state = one_row_state();
    assert!(state.add_column("c"));
    assert!(state.set_cell_formula(0, "c", "=b + b".to_string()));
    assert!(state.set_cell_formula(0, "b", "=a * 10".to_string()));
    assert_eq!(state.cell_value(0, "c"), Some(whole(20)));
}

#[test]
fn typed_input_is_coerced_by_the_declared_type() {
    let mut state = TableState::from_data(vec![row(vec![
        ("n", whole(0)),
        ("b", Value::Bool(false)),
        ("s", text("")),
        ("z", Value::Null),
    ])]);
    state.set_column_type("n", Some(ColumnType::Number));
    state.set_column_type("b", Some(ColumnType::Bool));
    state.set_column_type("s", Some(ColumnType::String));
    state.set_column_type("z", Some(ColumnType::Null));

    assert!(!state.set_cell_from_input(0, "n", "abc"));
    assert_eq!(state.data()[0].get("n"), Some(&whole(0)));
    assert!(state.set_cell_from_input(0, "n", "42"));
    assert_eq!(state.data()[0].get("n"), Some(&whole(42)));
    assert!(state.set_cell_from_input(0, "n", "true"));
    assert_eq!(state.data()[0].get("n"), Some(&whole(1)));
    assert!(state.set_cell_from_input(0, "n", "\"7.5\""));
    assert_eq!(state.data()[0].get("n"), Some(&Value::Number(num("7.5"))));
    assert!(!state.set_cell_from_input(0, "n", ""));
    assert!(!state.set_cell_value(0, "n", Value::Null));
    assert!(!state.set_cell_value(0, "n", Value::Array(vec![])));

    assert!(state.set_cell_from_input(0, "b", "TRUE"));
    assert_eq!(state.data()[0].get("b"), Some(&Value::Bool(true)));
    assert!(state.set_cell_from_input(0, "b", "0"));
    assert_eq!(state.data()[0].get("b"), Some(&Value::Bool(false)));
    assert!(state.set_cell_from_input(0, "b", "2"));
    assert_eq!(state.data()[0].get("b"), Some(&Value::Bool(true)));
    assert!(!state.set_cell_from_input(0, "b", "yes"));
    assert!(state.set_cell_value(0, "b", text(" false ")));
    assert_eq!(state.data()[0].get("b"), Some(&Value::Bool(false)));

    assert!(state.set_cell_from_input(0, "s", "42"));
    assert_eq!(state.data()[0].get("s"), Some(&text("42")));
    assert!(state.set_cell_from_input(0, "s", "true"));
    assert_eq!(state.data()[0].get("s"), Some(&text("true")));
    assert!(state.set_cell_value(0, "s", Value::Null));
    assert_eq!(state.data()[0].get("s"), Some(&text("")));

    assert!(!state.set_cell_from_input(0, "z", "x"));
    assert!(!state.set_cell_from_input(0, "z", "null"));
    assert_eq!(state.data()[0].get("z"), Some(&Value::Null));
    assert!(!state.set_cell_value(0, "z", whole(1)));
}

#[test]
fn typed_input_is_read_as_a_value() {
    assert_eq!(parse_cell_input("  NULL "), Value::Null);
    assert_eq!(parse_cell_input("-1.50"), Value::Number(num("-1.5")));
    assert_eq!(parse_cell_input("1e3"), whole(1000));
    assert_eq!(parse_cell_input("\"a\\nb\""), text("a\nb"));
    assert_eq!(parse_cell_input("\"unfinished"), text("\"unfinished"));
    assert_eq!(parse_cell_input("\"bad \\q escape\""), text("\"bad \\q escape\""));
    assert_eq!(parse_cell_input("''"), text(""));
    assert_eq!(parse_cell_input("'"), text("'"));
    assert_eq!(parse_cell_input("12abc"), text("12abc"));
    assert_eq!(parse_cell_input(" spaced out "), text("spaced out"));
}

#[test]
fn values_show_and_file_as_texts() {
    let nested = Value::Object(vec![
        ("k".to_string(), Value::Array(vec![whole(1), Value::Null, Value::Bool(true)])),
        ("q\"".to_string(), text("a\\b\n")),
    ]);
    assert_eq!(display_value(&nested), "{\"k\":[1,null,true],\"q\\\"\":\"a\\\\b\\n\"}");
    assert_eq!(to_compact_text(&text("é\"")), "\"é\\\"\"");
    assert_eq!(value_to_key_string(&text("id-1")), "id-1");
    assert_eq!(value_to_key_string(&whole(7)), "7");
    assert_eq!(value_to_key_string(&Value::Bool(true)), "true");
    assert_eq!(value_to_key_string(&Value::Null), "null");
    assert_eq!(value_to_key_string(&Value::Array(vec![text("a")])), "[\"a\"]");
    assert_eq!(display_value(&Value::Array(vec![])), "[]");
    assert_eq!(display_value(&Value::Object(vec![])), "{}");
}

#[test]
fn values_are_ordered_by_kind_then_by_content() {
    let ordered = vec![
        None,
        Some(Value::Null),
        Some(Value::Bool(false)),
        Some(Value::Bool(true)),
        Some(whole(-5)),
        Some(Value::Number(num("2.5"))),
        Some(text("apple")),
        Some(text("Banana")),
        Some(Value::Array(vec![whole(1)])),
        Some(Value::Array(vec![whole(2)])),
        Some(Value::Object(vec![])),
    ];
    for i in 0..ordered.len() {
        for j in 0..ordered.len() {
            let expected = if i < j {
                Relation::Before
            } else if i == j {
                Relation::Same
            } else {
                Relation::After
            };
            assert_eq!(
                compare_values(ordered[i].as_ref(), ordered[j].as_ref()),
                expected
            );
        }
    }
    assert_eq!(
        compare_values(Some(&text("ABC")), Some(&text("abc"))),
        Relation::Same
    );
}

#[test]
fn toggling_a_sort_alternates_its_direction() {
    let mut state = TableState::from_data(vec![
        row(vec![("k", whole(2)), ("n", text("first"))]),
        row(vec![("k", whole(1)), ("n", text("second"))]),
        row(vec![("k", whole(2)), ("n", text("third"))]),
    ]);
    let names = |state: &TableState| -> Vec<String> {
        (0..3).map(|i| state.cell_display_value(i, "n")).collect()
    };
    assert!(state.sort_by_column_toggle("k"));
    assert_eq!(state.sort_spec().map(|s| s.order), Some(SortOrder::Asc));
    assert_eq!(names(&state), vec!["second", "first", "third"]);
    assert!(state.sort_by_column_toggle("k"));
    assert_eq!(state.sort_spec().map(|s| s.order), Some(SortOrder::Desc));
    assert_eq!(names(&state), vec!["third", "first", "second"]);
    assert!(state.sort_by_column_toggle("k"));
    assert_eq!(state.sort_spec().map(|s| s.order), Some(SortOrder::Asc));
    assert_eq!(names(&state), vec!["second", "third", "first"]);
    assert!(state.sort_by_column_toggle("n"));
    assert_eq!(state.sort_spec().map(|s| s.order), Some(SortOrder::Asc));
    assert_eq!(state.sort_spec().map(|s| s.column.clone()), Some("n".to_string()));
}

#[test]
fn a_sort_puts_missing_values_first_and_moves_styles_along() {
    let mut state = TableState::from_data(vec![
        row(vec![("k", text("b"))]),
        row(vec![("other", whole(1))]),
        row(vec![("k", text("A"))]),
    ]);
    state.set_cell_style(0, "k", Some("red".to_string()), None);
    assert!(state.sort_by_column_toggle("k"));
    assert_eq!(state.data()[0].get("other"), Some(&whole(1)));
    assert_eq!(state.data()[1].get("k"), Some(&text("A")));
    assert_eq!(state.data()[2].get("k"), Some(&text("b")));
    assert_eq!(state.cell_inline_style(2, "k"), "color: red;");
    assert_eq!(state.cell_inline_style(0, "k"), "");
    assert_eq!(state.jsheet_meta().cell_formulas.len(), 3);
    assert_eq!(state.jsheet_meta().cell_styles.len(), 3);
}

#[test]
fn an_edit_invalidates_the_sort() {
    let mut state = one_row_state();
    assert!(state.sort_by_column_toggle("a"));
    assert!(state.sort_spec().is_some());
    assert!(state.set_cell_value(0, "a", whole(9)));
    assert!(state.sort_spec().is_none());
    assert!(state.undo());
    assert!(state.sort_spec().is_some());
}

#[test]
fn undo_walks_back_through_every_edit() {
    let mut state = TableState::from_data(vec![row(vec![("a", whole(1))])]);
    let mut history: Vec<TableState> = vec![state.copy_of()];
    assert!(state.set_cell_value(0, "a", whole(2)));
    history.push(state.copy_of());
    assert!(state.add_row());
    history.push(state.copy_of());
    assert!(state.add_column("b"));
    history.push(state.copy_of());
    assert!(state.sort_by_column_toggle("a"));
    history.push(state.copy_of());
    assert!(state.delete_row(0));
    history.push(state.copy_of());
    assert!(state.delete_column("a"));
    history.push(state.copy_of());
    assert_eq!(
        state.apply_cell_edits(vec![CellEdit {
            row_index: 0,
            column: "b".to_string(),
            kind: CellEditKind::Value(text("x")),
        }]),
        1
    );

    for earlier in history.iter().rev() {
        assert!(state.undo());
        assert_eq!(state.data(), earlier.data());
        assert_eq!(state.jsheet_meta(), earlier.jsheet_meta());
        assert_eq!(state.sort_spec(), earlier.sort_spec());
    }
    assert!(!state.can_undo());
    assert!(!state.undo());

    for later in history.iter().skip(1) {
        assert!(state.redo());
        assert_eq!(state.data(), later.data());
        assert_eq!(state.jsheet_meta(), later.jsheet_meta());
        assert_eq!(state.sort_spec(), later.sort_spec());
    }
    assert!(state.redo());
    assert!(!state.can_redo());
    assert!(!state.redo());
}

#[test]
fn redo_after_undo_is_the_state_that_was_undone() {
    let mut state = one_row_state();
    assert!(state.set_cell_value(0, "a", whole(5)));
    assert!(state.add_row());
    let before = state.copy_of();
    assert!(state.undo());
    assert!(state.redo());
    assert!(state.same_as(&before));
}

#[test]
fn an_edit_that_changes_nothing_leaves_no_history() {
    let mut state = one_row_state();
    assert!(!state.set_cell_value(0, "a", whole(1)));
    assert!(!state.set_cell_value(3, "a", whole(2)));
    assert!(!state.delete_row(7));
    assert!(!state.add_column(" "));
    assert!(!state.add_column("a"));
    assert!(!state.delete_column("none"));
    assert_eq!(state.apply_cell_edits(vec![]), 0);
    assert_eq!(
        state.apply_cell_edits(vec![
            CellEdit {
                row_index: 0,
                column: "a".to_string(),
                kind: CellEditKind::Value(whole(1)),
            },
            CellEdit {
                row_index: 9,
                column: "a".to_string(),
                kind: CellEditKind::Value(whole(2)),
            },
            CellEdit {
                row_index: 0,
                column: "  ".to_string(),
                kind: CellEditKind::Value(whole(2)),
            },
            CellEdit {
                row_index: 0,
                column: "a".to_string(),
                kind: CellEditKind::Formula("1 +".to_string()),
            },
            CellEdit {
                row_index: 9,
                column: "a".to_string(),
                kind: CellEditKind::Formula("=1".to_string()),
            },
        ]),
        0
    );
    assert!(!state.can_undo());
    assert!(state.same_as(&one_row_state()));
}

#[test]
fn a_batch_counts_what_it_changed() {
    let mut state = one_row_state();
    state.set_column_type("a", Some(ColumnType::Number));
    let changed = state.apply_cell_edits(vec![
        CellEdit {
            row_index: 0,
            column: " a ".to_string(),
            kind: CellEditKind::Value(text("5")),
        },
        CellEdit {
            row_index: 0,
            column: "a".to_string(),
            kind: CellEditKind::Value(text("no number")),
        },
        CellEdit {
            row_index: 0,
            column: "b".to_string(),
            kind: CellEditKind::Formula(" = a * 2".to_string()),
        },
        CellEdit {
            row_index: 0,
            column: "b".to_string(),
            kind: CellEditKind::Formula("a * 2".to_string()),
        },
        CellEdit {
            row_index: 0,
            column: "b".to_string(),
            kind: CellEditKind::Value(whole(2)),
        },
    ]);
    assert_eq!(changed, 3);
    assert_eq!(state.data()[0].get("a"), Some(&whole(5)));
    assert_eq!(state.data()[0].get("b"), Some(&whole(2)));
    assert_eq!(state.cell_formula(0, "b"), None);
    assert!(state.undo());
    assert!(state.same_as_data(&one_row_state()));
}

trait SameData {
    fn same_as_data(&self, other: &TableState) -> bool;
}

impl SameData for TableState {
    fn same_as_data(&self, other: &TableState) -> bool {
        self.data() == other.data()
    }
}

#[test]
fn deleting_the_filtered_column_shows_every_row() {
    let mut state = TableState::from_data(vec![
        row(vec![("a", text("x")), ("b", whole(1))]),
        row(vec![("a", text("y")), ("b", whole(2))]),
    ]);
    state.set_filter(Some("a".to_string()), " X ".to_string());
    assert_eq!(state.filter_query(), "X");
    assert_eq!(state.visible_row_indices(), vec![0]);
    assert!(state.delete_column(" b "));
    assert_eq!(state.filter_column().map(|s| s.as_str()), Some("a"));
    assert_eq!(state.visible_row_indices(), vec![0]);
    assert!(state.delete_column("a"));
    assert_eq!(state.filter_column(), None);
    assert_eq!(state.filter_query(), "");
    assert_eq!(state.visible_row_indices(), vec![0, 1]);
}

#[test]
fn the_filter_looks_at_computed_values() {
    let mut state = TableState::from_data(vec![
        row(vec![("a", whole(1))]),
        row(vec![("a", whole(2))]),
    ]);
    assert!(state.add_column("f"));
    assert!(state.set_cell_formula(0, "f", "=\"row\" + a".to_string()));
    assert!(state.set_cell_formula(1, "f", "=\"row\" + a".to_string()));
    state.set_filter(Some("f".to_string()), "ROW2".to_string());
    assert_eq!(state.visible_row_indices(), vec![1]);
    state.set_filter(Some("nowhere".to_string()), "x".to_string());
    assert_eq!(state.visible_row_indices(), Vec::<usize>::new());
    state.set_filter(None, "x".to_string());
    assert_eq!(state.visible_row_indices(), vec![0, 1]);
    state.set_search("w1".to_string());
    assert!(state.cell_matches_search(0, "f"));
    assert!(!state.cell_matches_search(1, "f"));
    assert!(!state.cell_matches_search(5, "f"));
    state.set_search("  ".to_string());
    assert!(!state.cell_matches_search(0, "f"));
}

#[test]
fn null_passes_every_validation_rule() {
    let rule = ValidationRule {
        min: Some(num("1")),
        max: Some(num("2")),
        enum_values: Some(vec!["x".to_string()]),
    };
    assert!(rule.validate(&Value::Null));
    assert!(!rule.validate(&whole(1)));
    assert!(!rule.validate(&text("y")));
    assert!(rule.validate(&text("X")));
    let bounds = ValidationRule {
        min: Some(num("1")),
        max: Some(num("2")),
        enum_values: None,
    };
    assert!(bounds.validate(&text("1.5")));
    assert!(!bounds.validate(&text("3")));
    assert!(bounds.validate(&text("not a number")));
    assert!(bounds.validate(&Value::Bool(true)));
    assert!(!bounds.validate(&Value::Bool(false)));

    let mut state = one_row_state();
    state.set_validation_rule(
        "a",
        Some(ValidationRule {
            min: None,
            max: None,
            enum_values: Some(vec!["one".to_string()]),
        }),
    );
    assert!(state.set_cell_value(0, "a", Value::Null));
    assert_eq!(state.data()[0].get("a"), Some(&Value::Null));
    assert!(!state.set_cell_value(0, "a", whole(1)));
}

#[test]
fn an_empty_validation_rule_is_no_rule() {
    let mut state = one_row_state();
    state.set_validation_rule("a", Some(ValidationRule::default()));
    assert!(state.validation_rule("a").is_none());
    state.set_validation_rule(
        "a",
        Some(ValidationRule {
            min: Some(num("0")),
            ..Default::default()
        }),
    );
    assert!(state.validation_rule("a").is_some());
    state.set_validation_rule("a", Some(ValidationRule::default()));
    assert!(state.validation_rule("a").is_none());
    state.set_validation_rule(
        "a",
        Some(ValidationRule {
            min: Some(num("0")),
            ..Default::default()
        }),
    );
    state.set_validation_rule("a", None);
    assert!(state.validation_rule("a").is_none());
}

#[test]
fn summaries_cover_the_rows_in_view() {
    let mut state = TableState::from_data(vec![
        row(vec![("v", whole(1)), ("t", text("keep"))]),
        row(vec![("v", text("2.5")), ("t", text("keep"))]),
        row(vec![("v", Value::Null), ("t", text("keep"))]),
        row(vec![("v", text("n/a")), ("t", text("keep"))]),
        row(vec![("v", whole(100)), ("t", text("drop"))]),
        row(vec![("t", text("keep"))]),
    ]);
    state.set_filter(Some("t".to_string()), "keep".to_string());
    assert_eq!(state.summary_display_for_column("v"), None);
    state.set_summary_kind("v", Some(SummaryKind::Count));
    assert_eq!(state.summary_display_for_column("v"), Some("3".to_string()));
    state.set_summary_kind("v", Some(SummaryKind::Sum));
    assert_eq!(state.summary_display_for_column("v"), Some("3.5".to_string()));
    state.set_summary_kind("v", Some(SummaryKind::Avg));
    assert_eq!(state.summary_display_for_column("v"), Some("1.75".to_string()));
    state.set_summary_kind("v", Some(SummaryKind::Min));
    assert_eq!(state.summary_display_for_column("v"), Some("1".to_string()));
    state.set_summary_kind("v", Some(SummaryKind::Max));
    assert_eq!(state.summary_display_for_column("v"), Some("2.5".to_string()));
    state.clear_filter();
    assert_eq!(state.summary_display_for_column("v"), Some("100".to_string()));
    state.set_summary_kind("t", Some(SummaryKind::Sum));
    assert_eq!(state.summary_display_for_column("t"), None);
    state.set_summary_kind("t", Some(SummaryKind::Count));
    assert_eq!(state.summary_display_for_column("t"), Some("6".to_string()));
    state.set_summary_kind("t", None);
    assert_eq!(state.summary_display_for_column("t"), None);
}

#[test]
fn an_average_is_rounded_to_six_digits() {
    let mut state = TableState::from_data(vec![
        row(vec![("v", whole(1))]),
        row(vec![("v", whole(0))]),
        row(vec![("v", whole(1))]),
    ]);
    state.set_summary_kind("v", Some(SummaryKind::Avg));
    assert_eq!(
        state.summary_display_for_column("v"),
        Some("0.666667".to_string())
    );
    let mut large = TableState::from_data(vec![
        row(vec![("v", Value::Number(num("18446744073709551615")))]),
        row(vec![("v", whole(1))]),
    ]);
    large.set_summary_kind("v", Some(SummaryKind::Sum));
    assert_eq!(large.summary_display_for_column("v"), Some("".to_string()));
}

#[test]
fn the_first_matching_format_styles_a_cell() {
    let mut state = TableState::from_data(vec![row(vec![("hp", whole(5)), ("n", text("Imp"))])]);
    let format = |column: &str, rule: &str, color: &str| ConditionalFormat {
        column: column.to_string(),
        rule: rule.to_string(),
        style: ColumnStyle {
            color: Some(color.to_string()),
            background: Some("white".to_string()),
        },
    };
    state.add_conditional_format(format("n", "== imp", "grey"));
    state.add_conditional_format(format("hp", "nonsense", "black"));
    state.add_conditional_format(format("hp", "> 10", "green"));
    state.add_conditional_format(format("hp", "<= 5", "red"));
    state.add_conditional_format(format("hp", "!= 7", "blue"));
    assert_eq!(
        state.cell_inline_style(0, "hp"),
        "color: red;background-color: white;"
    );
    assert_eq!(
        state.cell_inline_style(0, "n"),
        "color: grey;background-color: white;"
    );
    assert_eq!(state.cell_inline_style(0, "none"), "");
    assert_eq!(state.cell_inline_style(3, "hp"), "");
    assert!(!state.remove_conditional_format(9));
    assert!(state.remove_conditional_format(3));
    assert_eq!(
        state.cell_inline_style(0, "hp"),
        "color: blue;background-color: white;"
    );
}

#[test]
fn colours_are_trimmed_and_empty_styles_dropped() {
    let mut state = one_row_state();
    state.set_cell_style(0, "a", Some("  red ".to_string()), Some("   ".to_string()));
    assert_eq!(
        state.cell_style(0, "a"),
        Some(ColumnStyle {
            color: Some("red".to_string()),
            background: None
        })
    );
    state.set_cell_style(0, "a", Some("".to_string()), None);
    assert_eq!(state.cell_style(0, "a"), None);
    state.set_cell_style(0, "a", None, Some("blue".to_string()));
    assert_eq!(state.cell_inline_style(0, "a"), "background-color: blue;");
    state.clear_cell_style(0, "a");
    assert_eq!(state.cell_style(0, "a"), None);
    state.set_cell_style(9, "a", Some("red".to_string()), None);
    assert_eq!(state.jsheet_meta().cell_styles.len(), 1);
}

#[test]
fn display_columns_follow_the_order_then_the_alphabet() {
    let data: TableData = vec![row(vec![("m", whole(1)), ("b", whole(2))])];
    let mut meta = JSheetMeta::new();
    meta.set_column_type("typed", Some(ColumnType::Bool));
    meta.set_comment_column("note", true);
    meta.set_summary_kind("sum", Some(SummaryKind::Sum));
    assert!(meta.set_formula_for_cell(3, " calc ", "=1".to_string()));
    meta.set_cell_style(0, "styled", Some("red".to_string()), None);
    assert_eq!(
        meta.display_columns(&data),
        vec!["b", "calc", "m", "note", "styled", "sum", "typed"]
    );
    meta.set_column_order(vec![
        "sum".to_string(),
        "gone".to_string(),
        "b".to_string(),
        "sum".to_string(),
    ]);
    assert_eq!(
        meta.display_columns(&data),
        vec!["sum", "b", "sum", "calc", "m", "note", "styled", "typed"]
    );
    assert_eq!(meta.cell_formulas.len(), 4);
    assert_eq!(meta.cell_styles.len(), 4);
}

#[test]
fn the_row_key_is_the_first_column_that_tells_rows_apart() {
    let data: TableData = vec![
        row(vec![("a", whole(1)), ("b", Value::Null), ("c", text("x")), ("d", text("1"))]),
        row(vec![("a", whole(1)), ("b", whole(2)), ("c", text("y")), ("d", whole(1))]),
    ];
    let mut meta = JSheetMeta::new();
    meta.auto_detect_row_key(&data);
    assert_eq!(meta.row_key().map(|s| s.as_str()), Some("c"));
    meta.auto_detect_row_key(&vec![]);
    assert_eq!(meta.row_key().map(|s| s.as_str()), Some("c"));

    let mut none = JSheetMeta::new();
    none.auto_detect_row_key(&vec![
        row(vec![("a", whole(1))]),
        row(vec![("a", whole(1))]),
        row(vec![("b", whole(1))]),
    ]);
    assert_eq!(none.row_key(), None);
    none.auto_detect_row_key(&vec![]);
    assert_eq!(none.row_key(), None);

    let mut set = JSheetMeta::new();
    set.set_row_key(Some("zz".to_string()));
    set.auto_detect_row_key(&data);
    assert_eq!(set.row_key().map(|s| s.as_str()), Some("zz"));
}

#[test]
fn loading_lays_comments_over_the_rows() {
    let data: TableData = vec![
        row(vec![("a", whole(1)), ("note", text("in the file"))]),
        row(vec![("a", whole(2))]),
        row(vec![("a", whole(3)), ("todo", text("kept"))]),
    ];
    let mut meta = JSheetMeta::new();
    meta.set_comment_column("note", true);
    meta.set_comment_column("todo", true);
    meta.comment_rows = vec![
        row(vec![("note", text("first")), ("stray", text("ignored"))]),
        row(vec![("todo", text("second"))]),
    ];
    assert!(meta.set_formula_for_cell(7, "a", "=1".to_string()));
    let state = TableState::from_data_and_jsheet(data, meta);
    assert_eq!(state.data()[0].get("note"), Some(&text("first")));
    assert_eq!(state.data()[0].get("todo"), Some(&Value::Null));
    assert_eq!(state.data()[0].get("stray"), None);
    assert_eq!(state.data()[1].get("note"), Some(&Value::Null));
    assert_eq!(state.data()[1].get("todo"), Some(&text("second")));
    assert_eq!(state.data()[2].get("note"), Some(&Value::Null));
    assert_eq!(state.data()[2].get("todo"), Some(&text("kept")));
    assert_eq!(state.jsheet_meta().cell_formulas.len(), 3);
    assert_eq!(state.jsheet_meta().cell_styles.len(), 3);
    assert_eq!(state.jsheet_meta().row_key().map(|s| s.as_str()), Some("a"));

    let saved = state.jsheet_meta_for_save();
    assert_eq!(saved.comment_rows.len(), 3);
    assert_eq!(saved.comment_rows[0].len(), 2);
    assert_eq!(saved.comment_rows[2].get("todo"), Some(&text("kept")));
    let exported = state.export_json_data().unwrap();
    assert_eq!(exported[0].len(), 1);
    assert_eq!(exported[2].get("a"), Some(&whole(3)));
}

#[test]
fn a_comment_column_gives_every_row_a_member() {
    let mut empty = TableState::new();
    empty.set_comment_column("  ", true);
    assert_eq!(empty.data().len(), 0);
    empty.set_comment_column(" note ", true);
    assert_eq!(empty.data().len(), 1);
    assert_eq!(empty.data()[0].get("note"), Some(&Value::Null));
    assert!(empty.is_comment_column("note"));
    assert_eq!(empty.jsheet_meta().cell_formulas.len(), 1);
    empty.set_comment_column("note", false);
    assert!(!empty.is_comment_column("note"));
    assert_eq!(empty.data()[0].get("note"), Some(&Value::Null));
}

#[test]
fn export_fails_on_the_first_row_that_cannot_be_written() {
    let data: TableData = vec![
        row(vec![("a", whole(1))]),
        row(vec![("a", text("x"))]),
    ];
    let mut meta = JSheetMeta::new();
    meta.set_column_type("a", Some(ColumnType::Number));
    let state = TableState::from_data_and_jsheet(data, meta);
    assert_eq!(
        state.export_json_data(),
        Err(ExportError::Type {
            column: "a".to_string()
        })
    );

    let mut file_meta = JSheetMeta::new();
    let mut broken: StrMap<String> = StrMap::new();
    broken.insert("b".to_string(), "1 +".to_string());
    broken.insert("c".to_string(), "also bad (".to_string());
    file_meta.cell_formulas = vec![StrMap::new(), broken];
    file_meta.set_column_type("a", Some(ColumnType::Number));
    let loaded = TableState::from_data_and_jsheet(
        vec![row(vec![("a", whole(1))]), row(vec![("a", text("x"))])],
        file_meta,
    );
    assert_eq!(loaded.cell_value(1, "b"), None);
    assert_eq!(
        loaded.export_json_data(),
        Err(ExportError::Formula {
            row_index: 1,
            column: "b".to_string()
        })
    );
}

#[test]
fn export_coerces_and_bakes() {
    let data: TableData = vec![row(vec![
        ("n", text(" 4.50 ")),
        ("flag", whole(3)),
        ("label", Value::Bool(true)),
    ])];
    let mut meta = JSheetMeta::new();
    meta.set_column_type("n", Some(ColumnType::Number));
    meta.set_column_type("flag", Some(ColumnType::Bool));
    meta.set_column_type("label", Some(ColumnType::String));
    meta.set_column_type("absent", Some(ColumnType::Number));
    assert!(meta.set_formula_for_cell(0, "twice", "=n * 2".to_string()));
    let out = meta.export_row_with_formulas(&data[0], 0).unwrap();
    assert_eq!(out.get("n"), Some(&Value::Number(num("4.5"))));
    assert_eq!(out.get("flag"), Some(&Value::Bool(true)));
    assert_eq!(out.get("label"), Some(&text("true")));
    assert_eq!(out.get("twice"), Some(&whole(9)));
    assert_eq!(out.get("absent"), None);
    assert_eq!(out.len(), 4);
}

#[test]
fn a_row_is_computed_over_all_known_columns() {
    let mut state = one_row_state();
    assert!(state.set_cell_formula(0, "c", "=a + b".to_string()));
    assert!(state.set_cell_formula(0, "a", "=10".to_string()));
    let computed = state.row_with_computed(0).unwrap();
    assert_eq!(computed.get("a"), Some(&whole(10)));
    assert_eq!(computed.get("b"), Some(&whole(2)));
    assert_eq!(computed.get("c"), Some(&whole(12)));
    assert_eq!(computed.len(), 3);
    assert_eq!(state.row_with_computed(1), None);
}

#[test]
fn metadata_follows_deleted_rows_and_columns() {
    let mut state = TableState::from_data(vec![
        row(vec![("a", whole(1)), ("b", whole(1))]),
        row(vec![("a", whole(2)), ("b", whole(2))]),
    ]);
    assert!(state.set_cell_formula(1, "b", "=a".to_string()));
    state.set_cell_style(1, "a", Some("red".to_string()), None);
    state.set_column_type("a", Some(ColumnType::Number));
    state.set_summary_kind("a", Some(SummaryKind::Sum));
    state.set_comment_column("a", true);
    state.add_conditional_format(ConditionalFormat {
        column: "a".to_string(),
        rule: "> 0".to_string(),
        style: ColumnStyle::default(),
    });
    state.add_conditional_format(ConditionalFormat {
        column: "b".to_string(),
        rule: "> 0".to_string(),
        style: ColumnStyle::default(),
    });
    assert!(state.delete_row(0));
    assert_eq!(state.cell_formula(0, "b"), Some("a".to_string()));
    assert_eq!(state.cell_inline_style(0, "a"), "color: red;");
    assert!(state.delete_column("a"));
    assert_eq!(state.column_type("a"), None);
    assert_eq!(state.summary_kind("a"), None);
    assert!(!state.is_comment_column("a"));
    assert_eq!(state.cell_style(0, "a"), None);
    assert_eq!(state.conditional_formats().len(), 1);
    assert_eq!(state.conditional_formats()[0].column, "b");
    assert_eq!(state.cell_formula(0, "b"), Some("a".to_string()));
    assert_eq!(state.display_columns(), vec!["b"]);
}

#[test]
fn an_added_row_holds_null_under_every_known_column() {
    let mut state = one_row_state();
    state.set_column_type("typed", Some(ColumnType::String));
    assert!(state.add_row());
    assert_eq!(state.data().len(), 2);
    assert_eq!(state.data()[1].len(), 3);
    assert_eq!(state.data()[1].get("typed"), Some(&Value::Null));
    assert_eq!(state.jsheet_meta().cell_formulas.len(), 2);
    let mut empty = TableState::new();
    assert!(empty.add_column(" first "));
    assert_eq!(empty.data().len(), 1);
    assert_eq!(empty.data()[0].get("first"), Some(&Value::Null));
    assert_eq!(empty.jsheet_meta().cell_styles.len(), 1);
}

#[test]
fn the_sidecar_files_rows_by_their_key_text() {
    let data: TableData = vec![
        row(vec![("id", text("x"))]),
        row(vec![("other", whole(0))]),
        row(vec![("id", text("x"))]),
        row(vec![("id", whole(7))]),
        row(vec![("id", Value::Bool(false))]),
    ];
    let mut meta = JSheetMeta::new();
    meta.set_row_key(Some("id".to_string()));
    for i in 0..5 {
        assert!(meta.set_formula_for_cell(i, "f", format!("{} + 0", i)));
    }
    let file = JSheetFile::from_meta(&meta, &data);
    assert_eq!(file.keyed_cell_formulas.len(), 4);
    assert_eq!(
        file.keyed_cell_formulas.get("x").and_then(|m| m.get("f")),
        Some(&"2 + 0".to_string())
    );
    assert!(file.keyed_cell_formulas.get("1").is_some());
    assert!(file.keyed_cell_formulas.get("7").is_some());
    assert!(file.keyed_cell_formulas.get("false").is_some());
    assert!(file.cell_formulas.is_empty());
    assert!(file.keyed_cell_styles.is_empty());

    let loaded = file.into_meta(&data);
    assert_eq!(loaded.cell_formulas.len(), 5);
    assert_eq!(loaded.formula_for_cell(0, "f"), None);
    assert_eq!(loaded.formula_for_cell(1, "f"), None);
    assert_eq!(loaded.formula_for_cell(2, "f"), Some(&"2 + 0".to_string()));
    assert_eq!(loaded.formula_for_cell(3, "f"), Some(&"3 + 0".to_string()));
    assert_eq!(loaded.formula_for_cell(4, "f"), Some(&"4 + 0".to_string()));

    let shrunk: TableData = vec![row(vec![("id", whole(7))]), row(vec![("id", text("new"))])];
    let file = JSheetFile::from_meta(&meta, &data);
    let reloaded = file.into_meta(&shrunk);
    assert_eq!(reloaded.cell_formulas.len(), 2);
    assert_eq!(reloaded.formula_for_cell(0, "f"), Some(&"3 + 0".to_string()));
    assert_eq!(reloaded.formula_for_cell(1, "f"), None);
}

#[test]
fn the_sidecar_keeps_its_lists_without_a_row_key() {
    let data: TableData = vec![row(vec![("a", whole(1))])];
    let mut meta = JSheetMeta::new();
    assert!(meta.set_formula_for_cell(2, "f", "=1".to_string()));
    meta.set_column_type("a", Some(ColumnType::Number));
    meta.set_frozen_columns(Some(1));
    let file = JSheetFile::from_meta(&meta, &data);
    assert_eq!(file.cell_formulas.len(), 3);
    assert!(file.keyed_cell_formulas.is_empty());
    assert_eq!(
        file.columns.get("a"),
        Some(&ColumnConstraint {
            value_type: ColumnType::Number
        })
    );
    let loaded = file.into_meta(&data);
    assert!(loaded.same_as(&meta));
    let mut comments = StrSet::new();
    comments.insert("c".to_string());
    assert!(!comments.same_as(&loaded.comment_columns));
}

#[test]
fn json_texts_are_decoded_through_serde_json() {
    assert_eq!(value_from_text(" null "), Some(Value::Null));
    assert_eq!(value_from_text("true"), Some(Value::Bool(true)));
    assert_eq!(value_from_text("-2.50"), Some(Value::Number(num("-2.5"))));
    assert_eq!(value_from_text("0.000001"), Some(Value::Number(num("0.000001"))));
    assert_eq!(value_from_text("1e2"), Some(whole(100)));
    assert_eq!(value_from_text("\"a\\u0041\\n\""), Some(text("aA\n")));
    assert_eq!(
        value_from_text("{\"b\": [1, {\"c\": []}], \"a\": \"[1]\"}"),
        Some(Value::Object(vec![
            ("a".to_string(), text("[1]")),
            (
                "b".to_string(),
                Value::Array(vec![
                    whole(1),
                    Value::Object(vec![("c".to_string(), Value::Array(vec![]))])
                ])
            ),
        ]))
    );
    assert_eq!(value_from_text("+1"), None);
    assert_eq!(value_from_text("[1,]"), None);
    assert_eq!(value_from_text("{\"a\"}"), None);
    assert_eq!(value_from_text("1e400"), None);
    assert_eq!(value_from_text("[18446744073709551616]"), None);
    assert_eq!(value_from_text(""), None);
    assert_eq!(decode("[[1]]", 2), Some(Value::Array(vec![Value::Array(vec![whole(1)])])));
    assert_eq!(decode("[[1]]", 1), None);
    assert_eq!(decode("[]", 0), None);
    assert_eq!(decode("7", 0), Some(whole(7)));
}

#[test]
fn a_table_is_an_array_of_objects() {
    assert_eq!(
        rows_from_json(&whole(1)).map_err(|e| e.fault()),
        Err(JsonFault::NotAnArray)
    );
    assert_eq!(
        rows_from_json(&Value::Array(vec![Value::Object(vec![]), Value::Null]))
            .map_err(|e| e.fault()),
        Err(JsonFault::NotArrayOfObjects)
    );
    assert_eq!(
        load_rows("[{}, []]").map_err(|e| e.fault()),
        Err(JsonFault::NotArrayOfObjects)
    );
    assert_eq!(
        load_rows("[{\"a\": 1e400}]").map_err(|e| e.fault()),
        Err(JsonFault::Parse)
    );
    let data: TableData = vec![row(vec![("b", whole(1)), ("a", Value::Null)]), row(vec![])];
    let json = rows_to_json(&data);
    assert_eq!(
        json,
        Value::Array(vec![
            Value::Object(vec![
                ("a".to_string(), Value::Null),
                ("b".to_string(), whole(1))
            ]),
            Value::Object(vec![]),
        ])
    );
    assert_eq!(rows_from_json(&json), Ok(data));
}

#[test]
fn white_space_is_trimmed_as_by_str_trim() {
    let samples = [
        "",
        " ",
        " a ",
        "\t\n a b \r\n",
        "\u{a0}x\u{3000}",
        "\u{2003}\u{feff}y\u{2028}",
        "\u{85}\u{1680}z\u{202f}\u{205f}",
        "\u{200b}w",
        "\u{b}\u{c}\u{1c}v",
    ];
    for s in samples {
        assert_eq!(trimmed(s), s.trim());
    }
}
