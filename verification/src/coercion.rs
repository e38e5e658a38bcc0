//! The two gates of a cell edit: coercion to the column's declared type, then
//! the column's validation rule. Conditional formats share the comparisons.

use vstd::prelude::*;
use vstd::string::StringExecFns;
use crate::data_model::{Row, RowModel};
use crate::evaluate::cell_value;
use crate::jsheet::{entry_at, entry_of, inline_text, row_entries, ColumnStyle, ColumnType, FormatModel, JSheetMeta, MetaModel, RuleModel, StyleModel, ValidationRule};
use crate::model::Model;
use crate::number::{parse_decimal, relation_of, units_of, Number, SCALE};

use crate::text::{chars_of, same_text, equal_ignoring_case, lower_text, lowered, relate, same_ignoring_case, slice_of, text_of_range, text_relation, trim, trim_bounds, trimmed_chars, Relation};
use crate::value::{display_chars, display_text, display_value, number_of, Value, ValueModel};

verus! {

broadcast use vstd::std_specs::vec::group_vec_axioms;

/// The boolean that a text spells: `true` or `1`, `false` or `0`, in any case
/// and with white space around.
pub open spec fn parsed_bool(s: Seq<char>) -> Option<bool> {
    let t = trim(s);
    if same_ignoring_case(t, "true"@) || t == seq!['1'] {
        Some(true)
    } else if same_ignoring_case(t, "false"@) || t == seq!['0'] {
        Some(false)
    } else {
        None
    }
}

/// The number that a text spells, white space around it aside.
pub open spec fn parsed_number(s: Seq<char>) -> Option<int> {
    parse_decimal(trim(s))
}

/// The number that a value is taken for by a number column.
pub open spec fn coerced_number(value: ValueModel, input: Option<Seq<char>>) -> Option<int> {
    match value {
        ValueModel::Number(u) => Some(u),
        ValueModel::Text(s) => parsed_number(s),
        ValueModel::Bool(b) => Some(
            if b {
                SCALE as int
            } else {
                0
            },
        ),
        ValueModel::Null => match input {
            Some(raw) => parsed_number(raw),
            None => None,
        },
        _ => None,
    }
}

/// The boolean that a value is taken for by a boolean column.
pub open spec fn coerced_bool(value: ValueModel, input: Option<Seq<char>>) -> Option<bool> {
    match value {
        ValueModel::Bool(b) => Some(b),
        ValueModel::Number(u) => Some(u != 0),
        ValueModel::Text(s) => parsed_bool(s),
        ValueModel::Null => match input {
            Some(raw) => parsed_bool(raw),
            None => None,
        },
        _ => None,
    }
}

/// Whether typed input stands for null: nothing, or the word `null`.
pub open spec fn spells_null(input: Option<Seq<char>>) -> bool {
    match input {
        Some(raw) => trim(raw).len() == 0 || same_ignoring_case(trim(raw), "null"@),
        None => false,
    }
}

/// The value as the declared type holds it; none where the type refuses it.
/// `input` is the text the user typed, where the value came from typing.
pub open spec fn coerced(value: ValueModel, input: Option<Seq<char>>, ty: ColumnType) -> Option<
    ValueModel,
> {
    match ty {
        ColumnType::String => Some(ValueModel::Text(display_text(value))),
        ColumnType::Number => match coerced_number(value, input) {
            Some(u) => Some(ValueModel::Number(u)),
            None => None,
        },
        ColumnType::Bool => match coerced_bool(value, input) {
            Some(b) => Some(ValueModel::Bool(b)),
            None => None,
        },
        ColumnType::Null => if value is Null || spells_null(input) {
            Some(ValueModel::Null)
        } else {
            None
        },
    }
}

/// Some admitted text is the display text, up to ASCII case.
pub open spec fn admits(values: Seq<Seq<char>>, text: Seq<char>) -> bool {
    exists|i: int| 0 <= i < values.len() && same_ignoring_case(#[trigger] values[i], text)
}

/// Whether a rule lets a value pass. Null always passes. A value that counts
/// as a number must lie within the bounds, both included; where texts are
/// listed, the display text must be one of them, up to ASCII case.
pub open spec fn rule_accepts(rule: RuleModel, v: ValueModel) -> bool {
    v is Null || ({
        &&& match (rule.min, number_of(v)) {
            (Some(min), Some(u)) => min <= u,
            _ => true,
        }
        &&& match (rule.max, number_of(v)) {
            (Some(max), Some(u)) => u <= max,
            _ => true,
        }
        &&& match rule.enum_values {
            Some(values) => admits(values, display_text(v)),
            None => true,
        }
    })
}

/// The value that a column stores for a candidate: coerced to the declared
/// type where there is one, and passed by the validation rule where there is
/// one; none where either gate refuses.
pub open spec fn coerced_for_column(
    m: MetaModel,
    column: Seq<char>,
    value: ValueModel,
    input: Option<Seq<char>>,
) -> Option<ValueModel> {
    let typed = match entry_of(m.columns, column) {
        Some(c) => coerced(value, input, c.value_type),
        None => Some(value),
    };
    match typed {
        Some(v) => match entry_of(m.validation, column) {
            Some(rule) => if rule_accepts(rule, v) {
                Some(v)
            } else {
                None
            },
            None => Some(v),
        },
        None => None,
    }
}

/// Null passes every validation rule, and a column without a declared type
/// stores it whatever its rule lists.
pub proof fn lemma_null_is_always_accepted(
    m: MetaModel,
    column: Seq<char>,
    rule: RuleModel,
    input: Option<Seq<char>>,
)
    ensures
        rule_accepts(rule, ValueModel::Null),
        entry_of(m.columns, column) is None ==> coerced_for_column(
            m,
            column,
            ValueModel::Null,
            input,
        ) == Some(ValueModel::Null),
        coerced(ValueModel::Null, input, ColumnType::Null) == Some(ValueModel::Null),
{
}

#[derive(Clone, Copy, Debug, PartialEq, Eq, Structural)]
pub enum CondOp {
    Lt,
    Le,
    Gt,
    Ge,
    Eq,
    Ne,
}

/// A conditional-format rule taken apart: the comparison and what to compare with.
#[derive(Debug, PartialEq)]
pub struct ParsedCondRule {
    pub op: CondOp,
    pub operand: String,
}

/// The comparison that a rule text starts with, and how many characters it takes.
pub open spec fn leading_op(t: Seq<char>) -> Option<(CondOp, int)> {
    if t.len() >= 2 && t[0] == '<' && t[1] == '=' {
        Some((CondOp::Le, 2))
    } else if t.len() >= 2 && t[0] == '>' && t[1] == '=' {
        Some((CondOp::Ge, 2))
    } else if t.len() >= 2 && t[0] == '=' && t[1] == '=' {
        Some((CondOp::Eq, 2))
    } else if t.len() >= 2 && t[0] == '!' && t[1] == '=' {
        Some((CondOp::Ne, 2))
    } else if t.len() >= 1 && t[0] == '<' {
        Some((CondOp::Lt, 1))
    } else if t.len() >= 1 && t[0] == '>' {
        Some((CondOp::Gt, 1))
    } else {
        None
    }
}

/// A rule text taken apart; none where it starts with no comparison or names
/// nothing to compare with.
pub open spec fn parsed_rule(s: Seq<char>) -> Option<(CondOp, Seq<char>)> {
    let t = trim(s);
    match leading_op(t) {
        Some((op, n)) => {
            let operand = trim(t.subrange(n, t.len() as int));
            if operand.len() == 0 {
                None
            } else {
                Some((op, operand))
            }
        },
        None => None,
    }
}

/// Whether a comparison holds of how two things stand to each other.
pub open spec fn holds(op: CondOp, r: Relation) -> bool {
    match op {
        CondOp::Lt => r == Relation::Before,
        CondOp::Le => r != Relation::After,
        CondOp::Gt => r == Relation::After,
        CondOp::Ge => r != Relation::Before,
        CondOp::Eq => r == Relation::Same,
        CondOp::Ne => r != Relation::Same,
    }
}

/// Whether a value stands to the operand as the comparison asks: as numbers
/// where both are numbers, else as texts without regard to ASCII case.
pub open spec fn rule_matches(op: CondOp, operand: Seq<char>, v: ValueModel) -> bool {
    match (parse_decimal(operand), number_of(v)) {
        (Some(o), Some(u)) => holds(op, relation_of(u, o)),
        _ => holds(op, text_relation(lower_text(display_text(v)), lower_text(operand))),
    }
}

/// Whether the rule text of a format holds of a cell's value.
pub open spec fn format_applies(rule: Seq<char>, value: Option<ValueModel>) -> bool {
    match (parsed_rule(rule), value) {
        (Some((op, operand)), Some(v)) => rule_matches(op, operand, v),
        _ => false,
    }
}

/// The style of the first format at or after `i` that is for `column` and
/// holds of `value`.
pub open spec fn first_format(
    formats: Seq<FormatModel>,
    column: Seq<char>,
    value: Option<ValueModel>,
    i: int,
) -> Option<StyleModel>
    decreases formats.len() - i,
{
    if 0 <= i < formats.len() {
        if formats[i].column == column && format_applies(formats[i].rule, value) {
            Some(formats[i].style)
        } else {
            first_format(formats, column, value, i + 1)
        }
    } else {
        None
    }
}

/// The inline style of a cell: that of the style set on the cell itself, else
/// that of the first conditional format for the column that holds of the
/// cell's value, else nothing.
pub open spec fn inline_style(m: MetaModel, row: RowModel, row_index: int, column: Seq<char>) -> Seq<
    char,
> {
    match entry_at(m.cell_styles, row_index, column) {
        Some(style) => inline_text(style),
        None => match first_format(
            m.conditional_formats,
            column,
            cell_value(row_entries(m.cell_formulas, row_index), row, column),
            0,
        ) {
            Some(style) => inline_text(style),
            None => Seq::<char>::empty(),
        },
    }
}

fn is_one_char(t: &Vec<char>, c: char) -> (r: bool)
    ensures
        r == (t@ == seq![c]),
{
    if t.len() == 1 && t[0] == c {
        assert(t@ =~= seq![c]);
        true
    } else {
        if t.len() == 1 {
            assert(t@[0] != seq![c][0]);
        }
        false
    }
}

/// Reads a text as a boolean.
pub fn parse_bool(raw: &str) -> (r: Option<bool>)
    ensures
        r == parsed_bool(raw@),
{
    let t = trimmed_chars(raw);
    let true_word = chars_of("true");
    let false_word = chars_of("false");
    if equal_ignoring_case(&t, &true_word) || is_one_char(&t, '1') {
        Some(true)
    } else if equal_ignoring_case(&t, &false_word) || is_one_char(&t, '0') {
        Some(false)
    } else {
        None
    }
}

/// Reads a text as a number, white space around it aside.
pub fn parse_number(raw: &str) -> (r: Option<Number>)
    ensures
        units_of(r) == parsed_number(raw@),
{
    let t = trimmed_chars(raw);
    Number::parse_chars(&t)
}

fn coerce_number(value: &Value, input: Option<&str>) -> (r: Option<Number>)
    ensures
        units_of(r) == coerced_number(value.model(), input_model(input)),
{
    match value {
        Value::Number(n) => Some(*n),
        Value::String(s) => parse_number(s.as_str()),
        Value::Bool(b) => Some(Number::from_bool(*b)),
        Value::Null => match input {
            Some(raw) => parse_number(raw),
            None => None,
        },
        _ => None,
    }
}

fn coerce_bool(value: &Value, input: Option<&str>) -> (r: Option<bool>)
    ensures
        r == coerced_bool(value.model(), input_model(input)),
{
    match value {
        Value::Bool(b) => Some(*b),
        Value::Number(n) => Some(!n.is_zero()),
        Value::String(s) => parse_bool(s.as_str()),
        Value::Null => match input {
            Some(raw) => parse_bool(raw),
            None => None,
        },
        _ => None,
    }
}

/// The characters of typed input that may be absent.
pub open spec fn input_model(input: Option<&str>) -> Option<Seq<char>> {
    match input {
        Some(s) => Some(s@),
        None => None,
    }
}

/// Coerces a value to a declared type.
pub fn coerce_value(value: &Value, input: Option<&str>, column_type: ColumnType) -> (r: Option<
    Value,
>)
    ensures
        r.model() == coerced(value.model(), input_model(input), column_type),
{
    match column_type {
        ColumnType::String => Some(Value::String(display_value(value))),
        ColumnType::Number => match coerce_number(value, input) {
            Some(n) => Some(Value::Number(n)),
            None => None,
        },
        ColumnType::Bool => match coerce_bool(value, input) {
            Some(b) => Some(Value::Bool(b)),
            None => None,
        },
        ColumnType::Null => {
            let typed_null = match input {
                Some(raw) => {
                    let t = trimmed_chars(raw);
                    let null_word = chars_of("null");
                    t.len() == 0 || equal_ignoring_case(&t, &null_word)
                },
                None => false,
            };
            if value.is_null() || typed_null {
                Some(Value::Null)
            } else {
                None
            }
        },
    }
}

impl ValidationRule {
    /// Whether the rule lets `value` pass.
    #[verifier::loop_isolation(false)]
    pub fn validate(&self, value: &Value) -> (r: bool)
        ensures
            r == rule_accepts(self.model(), value.model()),
    {
        if value.is_null() {
            return true;
        }
        let number = value.as_number();
        match (&self.min, &number) {
            (Some(min), Some(n)) => {
                if n.relate(min) == Relation::Before {
                    return false;
                }
            },
            _ => {},
        }
        match (&self.max, &number) {
            (Some(max), Some(n)) => {
                if n.relate(max) == Relation::After {
                    return false;
                }
            },
            _ => {},
        }
        match &self.enum_values {
            Some(values) => {
                let text = display_chars(value);
                let ghost list = values.model();
                let mut i: usize = 0;
                while i < values.len()
                    invariant
                        i <= values.len(),
                        list == values.model(),
                        text@ == display_text(value.model()),
                        forall|k: int| 0 <= k < i ==> !same_ignoring_case(#[trigger] list[k], text@),
                    decreases values.len() - i,
                {
                    let candidate = chars_of(values[i].as_str());
                    assert(list[i as int] == values@[i as int]@);
                    if equal_ignoring_case(&candidate, &text) {
                        return true;
                    }
                    i += 1;
                }
                false
            },
            None => true,
        }
    }
}

impl ParsedCondRule {
    /// Takes a rule text apart: a comparison, then what to compare with.
    pub fn parse(rule: &str) -> (r: Option<ParsedCondRule>)
        ensures
            match r {
                Some(p) => parsed_rule(rule@) == Some((p.op, p.operand@)),
                None => parsed_rule(rule@) is None,
            },
    {
        let v = chars_of(rule);
        let (lo, hi) = trim_bounds(&v);
        let t = slice_of(&v, lo, hi);
        let n: usize = t.len();
        let (op, taken): (CondOp, usize) = if n >= 2 && t[0] == '<' && t[1] == '=' {
            (CondOp::Le, 2)
        } else if n >= 2 && t[0] == '>' && t[1] == '=' {
            (CondOp::Ge, 2)
        } else if n >= 2 && t[0] == '=' && t[1] == '=' {
            (CondOp::Eq, 2)
        } else if n >= 2 && t[0] == '!' && t[1] == '=' {
            (CondOp::Ne, 2)
        } else if n >= 1 && t[0] == '<' {
            (CondOp::Lt, 1)
        } else if n >= 1 && t[0] == '>' {
            (CondOp::Gt, 1)
        } else {
            return None;
        };
        let rest = slice_of(&t, taken, n);
        let (a, b) = trim_bounds(&rest);
        if a >= b {
            return None;
        }
        Some(ParsedCondRule { op, operand: text_of_range(&rest, a, b) })
    }

    /// Whether `value` stands to the operand as the comparison asks.
    pub fn matches(&self, value: &Value) -> (r: bool)
        ensures
            r == rule_matches(self.op, self.operand@, value.model()),
    {
        let operand = chars_of(self.operand.as_str());
        let relation = match (Number::parse_chars(&operand), value.as_number()) {
            (Some(o), Some(u)) => u.relate(&o),
            _ => {
                let text = lowered(&display_chars(value));
                let other = lowered(&operand);
                relate(&text, &other)
            },
        };
        match self.op {
            CondOp::Lt => relation == Relation::Before,
            CondOp::Le => relation != Relation::After,
            CondOp::Gt => relation == Relation::After,
            CondOp::Ge => relation != Relation::Before,
            CondOp::Eq => relation == Relation::Same,
            CondOp::Ne => relation != Relation::Same,
        }
    }
}

/// The inline style text of a style.
pub fn style_inline(style: &ColumnStyle) -> (r: String)
    ensures
        r@ == inline_text(style.model()),
{
    let mut out = String::new();
    match &style.color {
        Some(color) => {
            out.append("color: ");
            out.append(color.as_str());
            out.push(';');
        },
        None => {},
    }
    let ghost first = out@;
    match &style.background {
        Some(background) => {
            out.append("background-color: ");
            out.append(background.as_str());
            out.push(';');
        },
        None => {},
    }
    assert(out@ =~= inline_text(style.model()));
    out
}

impl JSheetMeta {
    /// The value that `column` stores for a candidate, or none where the
    /// declared type or the validation rule refuses it.
    pub fn coerce_value_for_column(&self, column: &str, value: &Value, input: Option<&str>) -> (r:
        Option<Value>)
        ensures
            r.model() == coerced_for_column(
                self.model(),
                column@,
                value.model(),
                input_model(input),
            ),
    {
        let typed = match self.column_type(column) {
            Some(t) => coerce_value(value, input, t),
            None => Some(value.copy_of()),
        };
        match typed {
            Some(v) => match self.validation_rule(column) {
                Some(rule) => {
                    if rule.validate(&v) {
                        Some(v)
                    } else {
                        None
                    }
                },
                None => Some(v),
            },
            None => None,
        }
    }

    /// The inline style of the cell under `column` of `row`, which stands at
    /// `row_index`.
    #[verifier::loop_isolation(false)]
    pub fn cell_style_inline(&self, row: &Row, row_index: usize, column: &str) -> (r: String)
        ensures
            r@ == inline_style(self.model(), row.model(), row_index as int, column@),
    {
        match self.cell_style(row_index, column) {
            Some(style) => {
                return style_inline(style);
            },
            None => {},
        }
        let value = self.value_for_cell(row, row_index, column);
        let ghost formats = self.model().conditional_formats;
        let ghost v = value.model();
        let mut i: usize = 0;
        while i < self.conditional_formats.len()
            invariant
                i <= self.conditional_formats.len(),
                formats == self.conditional_formats.model(),
                v == value.model(),
                first_format(formats, column@, v, 0) == first_format(formats, column@, v, i as int),
            decreases self.conditional_formats.len() - i,
        {
            let format = &self.conditional_formats[i];
            assert(formats[i as int] == format.model());
            if same_text(format.column.as_str(), column) {
                match (ParsedCondRule::parse(format.rule.as_str()), &value) {
                    (Some(rule), Some(x)) => {
                        if rule.matches(x) {
                            return style_inline(&format.style);
                        }
                    },
                    _ => {},
                }
            }
            i += 1;
        }
        String::new()
    }
}

} // verus!

verus! {

/// What a column with a declared type takes is of that type.
pub proof fn lemma_coerced_is_of_the_type(
    value: ValueModel,
    input: Option<Seq<char>>,
    ty: ColumnType,
)
    ensures
        match coerced(value, input, ty) {
            Some(v) => match ty {
                ColumnType::String => v is Text,
                ColumnType::Number => v is Number,
                ColumnType::Bool => v is Bool,
                ColumnType::Null => v is Null,
            },
            None => true,
        },
{
}

} // verus!
