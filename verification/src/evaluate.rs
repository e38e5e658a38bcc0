//! Formula evaluation over one row, guarded against cycles.
//!
//! A column that has a formula on the row is worth what the formula computes;
//! any other column is worth what the row holds. While a column's formula is
//! being computed the column is in flight, and a reference to a column in
//! flight is worth nothing. Each formula entered takes one column of the row
//! out of the columns not in flight, so every evaluation ends.

use vstd::prelude::*;
use crate::data_model::{Row, RowModel};
use crate::formula::{parse_formula, parse_text, BinOp, Expr, ExprModel};
use crate::jsheet::{entry_of, row_entries, JSheetMeta};
use crate::model::Model;
use crate::number::{difference_of, product_of, quotient_of, sum_of, units_of, Number};
use crate::strmap::{has_key, index_of_key, lemma_pairs_map, pairs_map, StrMap, StrSet};
use crate::text::text_of;
use crate::value::{display_chars, display_text, number_of, Value, ValueModel};

verus! {

broadcast use vstd::std_specs::vec::group_vec_axioms;

/// The formulas of one row: formula text by column.
pub type FormulaRow = Seq<(Seq<char>, Seq<char>)>;

/// How many columns with a formula are not in flight.
pub open spec fn free_count(formulas: FormulaRow, stack: Set<Seq<char>>) -> nat
    decreases formulas.len(),
{
    if formulas.len() == 0 {
        0
    } else {
        free_count(formulas.drop_last(), stack) + if stack.contains(formulas.last().0) {
            0nat
        } else {
            1nat
        }
    }
}

proof fn lemma_free_count_grows_not(formulas: FormulaRow, stack: Set<Seq<char>>, column: Seq<char>)
    ensures
        free_count(formulas, stack.insert(column)) <= free_count(formulas, stack),
    decreases formulas.len(),
{
    if formulas.len() > 0 {
        lemma_free_count_grows_not(formulas.drop_last(), stack, column);
    }
}

/// Putting a column with a formula in flight leaves fewer columns free.
pub proof fn lemma_free_count_enter(formulas: FormulaRow, stack: Set<Seq<char>>, column: Seq<char>)
    requires
        has_key(formulas, column),
        !stack.contains(column),
    ensures
        free_count(formulas, stack.insert(column)) < free_count(formulas, stack),
    decreases formulas.len(),
{
    let i = index_of_key(formulas, column);
    if i == formulas.len() - 1 {
        lemma_free_count_grows_not(formulas.drop_last(), stack, column);
    } else {
        assert(formulas.drop_last()[i].0 == column);
        lemma_free_count_enter(formulas.drop_last(), stack, column);
    }
}

/// The number as a value, or null where there is none.
pub open spec fn number_or_null(u: Option<int>) -> ValueModel {
    match u {
        Some(n) => ValueModel::Number(n),
        None => ValueModel::Null,
    }
}

/// The value of `-v`: the negated number, or null where `v` is no number.
pub open spec fn negated_value(v: ValueModel) -> ValueModel {
    match number_of(v) {
        Some(u) => ValueModel::Number(-u),
        None => ValueModel::Null,
    }
}

/// The value of `l op r`. `+` adds two numbers, and otherwise joins the two
/// display texts; `-`, `*` and `/` compute on two numbers and give null for
/// anything else. A result that is no number, a quotient by zero among them,
/// is null.
pub open spec fn binary_value(op: BinOp, l: ValueModel, r: ValueModel) -> ValueModel {
    match (number_of(l), number_of(r)) {
        (Some(a), Some(b)) => match op {
            BinOp::Add => number_or_null(sum_of(a, b)),
            BinOp::Sub => number_or_null(difference_of(a, b)),
            BinOp::Mul => number_or_null(product_of(a, b)),
            BinOp::Div => number_or_null(quotient_of(a, b)),
        },
        _ => match op {
            BinOp::Add => ValueModel::Text(display_text(l) + display_text(r)),
            _ => ValueModel::Null,
        },
    }
}

/// What `column` is worth on a row while the columns of `stack` are in flight.
pub open spec fn resolve(
    formulas: FormulaRow,
    row: RowModel,
    column: Seq<char>,
    stack: Set<Seq<char>>,
) -> Option<ValueModel>
    decreases free_count(formulas, stack), 0nat, ExprModel::Number(0),
{
    if has_key(formulas, column) {
        if stack.contains(column) {
            None
        } else {
            match parse_text(pairs_map(formulas)[column]) {
                Ok(e) => {
                    proof {
                        lemma_free_count_enter(formulas, stack, column);
                    }
                    Some(evaluate(formulas, row, e, stack.insert(column)))
                },
                Err(_) => None,
            }
        }
    } else {
        entry_of(row, column)
    }
}

/// What the expression `e` is worth on a row while the columns of `stack` are
/// in flight. A reference that resolves to nothing is null.
pub open spec fn evaluate(
    formulas: FormulaRow,
    row: RowModel,
    e: ExprModel,
    stack: Set<Seq<char>>,
) -> ValueModel
    decreases free_count(formulas, stack), 1nat, e,
{
    match e {
        ExprModel::Number(u) => ValueModel::Number(u),
        ExprModel::Text(s) => ValueModel::Text(s),
        ExprModel::Ident(name) => match resolve(formulas, row, name, stack) {
            Some(v) => v,
            None => ValueModel::Null,
        },
        ExprModel::Negate(inner) => negated_value(evaluate(formulas, row, *inner, stack)),
        ExprModel::Binary(op, left, right) => binary_value(
            op,
            evaluate(formulas, row, *left, stack),
            evaluate(formulas, row, *right, stack),
        ),
    }
}

/// What a cell is worth: the value of its formula, or what the row holds.
pub open spec fn cell_value(formulas: FormulaRow, row: RowModel, column: Seq<char>) -> Option<
    ValueModel,
> {
    resolve(formulas, row, column, Set::<Seq<char>>::empty())
}

/// The expression refers to `name` in a place from which null spreads to the
/// whole: the reference itself, under a minus sign, or on either side of `-`,
/// `*` or `/`.
pub open spec fn spreads_null(e: ExprModel, name: Seq<char>) -> bool
    decreases e,
{
    match e {
        ExprModel::Ident(n) => n == name,
        ExprModel::Negate(inner) => spreads_null(*inner, name),
        ExprModel::Binary(op, left, right) => op != BinOp::Add && (spreads_null(*left, name)
            || spreads_null(*right, name)),
        _ => false,
    }
}

/// Where null spreads from a reference that is worth null or nothing, the
/// expression is null.
pub proof fn lemma_null_spreads(
    formulas: FormulaRow,
    row: RowModel,
    e: ExprModel,
    name: Seq<char>,
    stack: Set<Seq<char>>,
)
    requires
        spreads_null(e, name),
        resolve(formulas, row, name, stack) is None || resolve(formulas, row, name, stack) == Some(
            ValueModel::Null,
        ),
    ensures
        evaluate(formulas, row, e, stack) == ValueModel::Null,
    decreases e,
{
    match e {
        ExprModel::Negate(inner) => {
            lemma_null_spreads(formulas, row, *inner, name, stack);
        },
        ExprModel::Binary(op, left, right) => {
            if spreads_null(*left, name) {
                lemma_null_spreads(formulas, row, *left, name, stack);
            } else {
                lemma_null_spreads(formulas, row, *right, name, stack);
            }
        },
        _ => {},
    }
}

/// Two columns whose formulas refer to each other, each in a place from which
/// null spreads, are both worth null, whatever else the row holds.
pub proof fn lemma_mutual_reference_is_null(
    formulas: FormulaRow,
    row: RowModel,
    a: Seq<char>,
    b: Seq<char>,
    ea: ExprModel,
    eb: ExprModel,
)
    requires
        a != b,
        has_key(formulas, a),
        has_key(formulas, b),
        parse_text(pairs_map(formulas)[a]) == Ok::<ExprModel, crate::formula::FormulaError>(ea),
        parse_text(pairs_map(formulas)[b]) == Ok::<ExprModel, crate::formula::FormulaError>(eb),
        spreads_null(ea, b),
        spreads_null(eb, a),
    ensures
        cell_value(formulas, row, a) == Some(ValueModel::Null),
        cell_value(formulas, row, b) == Some(ValueModel::Null),
{
    let none = Set::<Seq<char>>::empty();
    let sa = none.insert(a);
    let sb = none.insert(b);
    // Entered from a: b's formula meets a in flight.
    assert(resolve(formulas, row, a, sa.insert(b)) is None);
    lemma_null_spreads(formulas, row, eb, a, sa.insert(b));
    assert(resolve(formulas, row, b, sa) == Some(ValueModel::Null));
    lemma_null_spreads(formulas, row, ea, b, sa);
    // Entered from b: a's formula meets b in flight.
    assert(resolve(formulas, row, b, sb.insert(a)) is None);
    lemma_null_spreads(formulas, row, ea, b, sb.insert(a));
    assert(resolve(formulas, row, a, sb) == Some(ValueModel::Null));
    lemma_null_spreads(formulas, row, eb, a, sb);
}

/// A column in flight is worth nothing.
pub proof fn lemma_in_flight_is_nothing(
    formulas: FormulaRow,
    row: RowModel,
    column: Seq<char>,
    stack: Set<Seq<char>>,
)
    requires
        has_key(formulas, column),
        stack.contains(column),
    ensures
        resolve(formulas, row, column, stack) is None,
{
}

fn number_value(n: Option<Number>) -> (r: Value)
    ensures
        r.model() == number_or_null(units_of(n)),
{
    match n {
        Some(x) => Value::Number(x),
        None => Value::Null,
    }
}

/// The value of `left op right`.
pub fn eval_binary(op: BinOp, left: &Value, right: &Value) -> (r: Value)
    ensures
        r.model() == binary_value(op, left.model(), right.model()),
{
    let a = left.as_number();
    let b = right.as_number();
    match (a, b) {
        (Some(x), Some(y)) => match op {
            BinOp::Add => number_value(x.plus(&y)),
            BinOp::Sub => number_value(x.minus(&y)),
            BinOp::Mul => number_value(x.times(&y)),
            BinOp::Div => number_value(x.divided_by(&y)),
        },
        _ => match op {
            BinOp::Add => {
                let mut text = display_chars(left);
                let more = display_chars(right);
                let ghost before = text@;
                let mut i: usize = 0;
                while i < more.len()
                    invariant
                        i <= more.len(),
                        text@ == before + more@.take(i as int),
                    decreases more.len() - i,
                {
                    text.push(more[i]);
                    assert(more@.take(i as int).push(more@[i as int]) =~= more@.take(i + 1));
                    assert(text@ =~= before + more@.take(i + 1));
                    i += 1;
                }
                assert(more@.take(more@.len() as int) =~= more@);
                Value::String(text_of(&text))
            },
            _ => Value::Null,
        },
    }
}

/// What `column` is worth on `row` while the columns of `stack` are in flight.
pub fn resolve_cell(formulas: &StrMap<String>, row: &Row, column: &str, stack: &mut StrSet) -> (r:
    Option<Value>)
    ensures
        r.model() == resolve(formulas.pairs(), row.pairs(), column@, old(stack).set()),
        final(stack).set() == old(stack).set(),
    decreases free_count(formulas.pairs(), old(stack).set()), 0nat, ExprModel::Number(0),
{
    let fl = formulas.len();
    let rl = row.len();
    proof {
        lemma_pairs_map(formulas.pairs());
        lemma_pairs_map(row.pairs());
    }
    match formulas.get(column) {
        Some(text) => {
            let ghost before = stack.set();
            if !stack.insert(column.to_owned()) {
                assert(stack.set() =~= before);
                return None;
            }
            proof {
                lemma_free_count_enter(formulas.pairs(), before, column@);
            }
            let r = match parse_formula(text.as_str()) {
                Ok(e) => Some(eval_expr(formulas, row, &e, stack)),
                Err(_) => None,
            };
            stack.remove(column);
            assert(stack.set() =~= before);
            r
        },
        None => match row.get(column) {
            Some(v) => Some(v.copy_of()),
            None => None,
        },
    }
}

/// What `e` is worth on `row` while the columns of `stack` are in flight.
pub fn eval_expr(formulas: &StrMap<String>, row: &Row, e: &Expr, stack: &mut StrSet) -> (r: Value)
    ensures
        r.model() == evaluate(formulas.pairs(), row.pairs(), e.model_of(), old(stack).set()),
        final(stack).set() == old(stack).set(),
    decreases free_count(formulas.pairs(), old(stack).set()), 1nat, e.model_of(),
{
    match e {
        Expr::Number(n) => Value::Number(*n),
        Expr::String(s) => Value::String(s.clone()),
        Expr::Ident(name) => match resolve_cell(formulas, row, name.as_str(), stack) {
            Some(v) => v,
            None => Value::Null,
        },
        Expr::UnaryMinus(inner) => {
            let v = eval_expr(formulas, row, inner, stack);
            match v.as_number() {
                Some(n) => Value::Number(n.negated()),
                None => Value::Null,
            }
        },
        Expr::Binary { op, left, right } => {
            let l = eval_expr(formulas, row, left, stack);
            let r = eval_expr(formulas, row, right, stack);
            eval_binary(*op, &l, &r)
        },
    }
}

impl JSheetMeta {
    /// What the cell under `column` of `row`, which stands at `row_index`, is
    /// worth: the value of the formula attached to it, or what the row holds.
    /// Nothing where the row has no such member and no formula, or where the
    /// stored formula does not parse.
    pub fn value_for_cell(&self, row: &Row, row_index: usize, column: &str) -> (r: Option<Value>)
        ensures
            r.model() == cell_value(
                row_entries(self.model().cell_formulas, row_index as int),
                row.model(),
                column@,
            ),
    {
        let mut stack = StrSet::new();
        if row_index < self.cell_formulas.len() {
            resolve_cell(&self.cell_formulas[row_index], row, column, &mut stack)
        } else {
            let none: StrMap<String> = StrMap::new();
            resolve_cell(&none, row, column, &mut stack)
        }
    }
}

} // verus!
