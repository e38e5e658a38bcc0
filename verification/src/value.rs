//! Cell values: the JSON union, its display text, and the order used to sort.

use vstd::prelude::*;
use crate::model::Model;
use crate::number::{decimal_text, parse_decimal, relation_of, Number, SCALE};
use crate::text::{chars_of, equal_ignoring_case, lower_text, lowered, relate, same_ignoring_case, text_of, text_relation, trim, trimmed_chars, Relation};

verus! {

broadcast use vstd::std_specs::vec::group_vec_axioms;

/// A JSON value as mathematics: a number is its count of billionths, a text its
/// characters, an object its members in the order held.
pub enum ValueModel {
    Null,
    Bool(bool),
    Number(int),
    Text(Seq<char>),
    Array(Seq<ValueModel>),
    Object(Seq<(Seq<char>, ValueModel)>),
}

#[derive(Debug, PartialEq)]
pub enum Value {
    Null,
    Bool(bool),
    Number(Number),
    String(String),
    Array(Vec<Value>),
    Object(Vec<(String, Value)>),
}

/// The JSON string literal, quotes included, that `serde_json` writes for a text.
pub uninterp spec fn json_quoted(s: Seq<char>) -> Seq<char>;

/// The text that `serde_json` reads from a JSON string literal; none where the
/// input is no such literal.
pub uninterp spec fn json_unquoted(s: Seq<char>) -> Option<Seq<char>>;

/// `serde_json`'s `Display` for `Value::String`: the text as a JSON string
/// literal, with its quotes and escapes.
#[verifier::external_body]
fn json_quote(s: &str) -> (r: String)
    ensures
        r@ == json_quoted(s@),
{
    serde_json::Value::String(s.to_owned()).to_string()
}

/// `serde_json::from_str` on a candidate string literal: the text it denotes
/// where the input parses as a JSON string, nothing otherwise.
#[verifier::external_body]
pub(crate) fn json_unquote(s: &str) -> (r: Option<String>)
    ensures
        r.model() == json_unquoted(s@),
{
    match serde_json::from_str::<serde_json::Value>(s) {
        Ok(serde_json::Value::String(text)) => Some(text),
        _ => None,
    }
}

/// `true` or `false`.
pub open spec fn bool_text(b: bool) -> Seq<char> {
    if b {
        seq!['t', 'r', 'u', 'e']
    } else {
        seq!['f', 'a', 'l', 's', 'e']
    }
}

/// The compact JSON text of a value.
pub open spec fn json_text(v: ValueModel) -> Seq<char>
    decreases v, 0nat,
{
    match v {
        ValueModel::Null => seq!['n', 'u', 'l', 'l'],
        ValueModel::Bool(b) => bool_text(b),
        ValueModel::Number(u) => decimal_text(u),
        ValueModel::Text(s) => json_quoted(s),
        ValueModel::Array(items) => seq!['['] + json_items(items, 0) + seq![']'],
        ValueModel::Object(members) => seq!['{'] + json_members(members, 0) + seq!['}'],
    }
}

/// The items from index `i` on, each after the first behind a comma.
pub open spec fn json_items(items: Seq<ValueModel>, i: int) -> Seq<char>
    decreases items, items.len() - i,
{
    if 0 <= i < items.len() {
        let comma = if i > 0 {
            seq![',']
        } else {
            Seq::<char>::empty()
        };
        comma + json_text(items[i]) + json_items(items, i + 1)
    } else {
        Seq::<char>::empty()
    }
}

/// The members from index `i` on, each as its quoted key, a colon and its value.
pub open spec fn json_members(members: Seq<(Seq<char>, ValueModel)>, i: int) -> Seq<char>
    decreases members, members.len() - i,
{
    if 0 <= i < members.len() {
        let comma = if i > 0 {
            seq![',']
        } else {
            Seq::<char>::empty()
        };
        comma + json_quoted(members[i].0) + seq![':'] + json_text(members[i].1) + json_members(
            members,
            i + 1,
        )
    } else {
        Seq::<char>::empty()
    }
}

/// What a cell shows: a text as it is, a number in decimal, `true` or `false`,
/// nothing for null, and compact JSON for an array or an object.
pub open spec fn display_text(v: ValueModel) -> Seq<char> {
    match v {
        ValueModel::Text(s) => s,
        ValueModel::Number(u) => decimal_text(u),
        ValueModel::Bool(b) => bool_text(b),
        ValueModel::Null => Seq::<char>::empty(),
        _ => json_text(v),
    }
}

/// The text under which a row is filed by its key value.
pub open spec fn key_text(v: ValueModel) -> Seq<char> {
    match v {
        ValueModel::Text(s) => s,
        ValueModel::Number(u) => decimal_text(u),
        ValueModel::Bool(b) => bool_text(b),
        _ => json_text(v),
    }
}

/// The number that a value counts as in arithmetic: a number itself, a text
/// that reads as a decimal, a boolean as one or zero.
pub open spec fn number_of(v: ValueModel) -> Option<int> {
    match v {
        ValueModel::Number(u) => Some(u),
        ValueModel::Text(s) => parse_decimal(trim(s)),
        ValueModel::Bool(b) => Some(
            if b {
                SCALE as int
            } else {
                0
            },
        ),
        _ => None,
    }
}

/// The rank of a value's kind in the sort order.
pub open spec fn type_rank_of(v: ValueModel) -> int {
    match v {
        ValueModel::Null => 0,
        ValueModel::Bool(_) => 1,
        ValueModel::Number(_) => 2,
        ValueModel::Text(_) => 3,
        ValueModel::Array(_) => 4,
        ValueModel::Object(_) => 5,
    }
}

/// The order of two present values: by kind first; two booleans with false
/// first, two numbers by magnitude, two texts without regard to ASCII case, and
/// other pairs of one kind by their display text.
pub open spec fn pair_relation(l: ValueModel, r: ValueModel) -> Relation {
    match (l, r) {
        (ValueModel::Null, ValueModel::Null) => Relation::Same,
        (ValueModel::Bool(a), ValueModel::Bool(b)) => if a == b {
            Relation::Same
        } else if b {
            Relation::Before
        } else {
            Relation::After
        },
        (ValueModel::Number(a), ValueModel::Number(b)) => relation_of(a, b),
        (ValueModel::Text(a), ValueModel::Text(b)) => text_relation(lower_text(a), lower_text(b)),
        _ => if type_rank_of(l) < type_rank_of(r) {
            Relation::Before
        } else if type_rank_of(l) > type_rank_of(r) {
            Relation::After
        } else {
            text_relation(display_text(l), display_text(r))
        },
    }
}

/// The order used to sort rows by a column: a missing value before any present one.
pub open spec fn value_relation(a: Option<ValueModel>, b: Option<ValueModel>) -> Relation {
    match (a, b) {
        (None, None) => Relation::Same,
        (None, Some(_)) => Relation::Before,
        (Some(_), None) => Relation::After,
        (Some(l), Some(r)) => pair_relation(l, r),
    }
}

/// What typed input stands for: nothing or `null` for null, `true` and `false`
/// for the booleans, a quoted text for its content, a decimal for a number, and
/// any other input for itself as text.
pub open spec fn parsed_input(s: Seq<char>) -> ValueModel {
    let t = trim(s);
    if t.len() == 0 || same_ignoring_case(t, "null"@) {
        ValueModel::Null
    } else if same_ignoring_case(t, "true"@) {
        ValueModel::Bool(true)
    } else if same_ignoring_case(t, "false"@) {
        ValueModel::Bool(false)
    } else if t.len() >= 2 && t[0] == '"' && t.last() == '"' && json_unquoted(t) is Some {
        ValueModel::Text(json_unquoted(t)->0)
    } else if t.len() >= 2 && t[0] == '\'' && t.last() == '\'' {
        ValueModel::Text(t.subrange(1, t.len() - 1))
    } else {
        match parse_decimal(t) {
            Some(u) => ValueModel::Number(u),
            None => ValueModel::Text(t),
        }
    }
}

impl Value {
    pub open spec fn model_of(self) -> ValueModel
        decreases self,
    {
        match self {
            Value::Null => ValueModel::Null,
            Value::Bool(b) => ValueModel::Bool(b),
            Value::Number(n) => ValueModel::Number(n.units()),
            Value::String(s) => ValueModel::Text(s@),
            Value::Array(items) => ValueModel::Array(
                Seq::new(
                    items@.len(),
                    |i: int|
                        if 0 <= i < items@.len() {
                            items@[i].model_of()
                        } else {
                            ValueModel::Null
                        },
                ),
            ),
            Value::Object(members) => ValueModel::Object(
                Seq::new(
                    members@.len(),
                    |i: int|
                        if 0 <= i < members@.len() {
                            (members@[i].0@, members@[i].1.model_of())
                        } else {
                            (Seq::<char>::empty(), ValueModel::Null)
                        },
                ),
            ),
        }
    }

    pub fn is_null(&self) -> (r: bool)
        ensures
            r == (self.model_of() == ValueModel::Null),
    {
        match self {
            Value::Null => true,
            _ => false,
        }
    }

    #[verifier::loop_isolation(false)]
    fn dup(&self) -> (r: Value)
        ensures
            r.model_of() == self.model_of(),
        decreases self,
    {
        match self {
            Value::Null => Value::Null,
            Value::Bool(b) => Value::Bool(*b),
            Value::Number(n) => Value::Number(*n),
            Value::String(s) => Value::String(s.clone()),
            Value::Array(items) => {
                let mut out: Vec<Value> = Vec::new();
                let mut i: usize = 0;
                while i < items.len()
                    invariant
                        i <= items.len(),
                        out@.len() == i,
                        forall|j: int|
                            0 <= j < i ==> (#[trigger] out@[j]).model_of() == items@[j].model_of(),
                    decreases items.len() - i,
                {
                    out.push(items[i].dup());
                    i += 1;
                }
                let r = Value::Array(out);
                assert(r.model_of()->Array_0 =~= self.model_of()->Array_0);
                r
            },
            Value::Object(members) => {
                let mut out: Vec<(String, Value)> = Vec::new();
                let mut i: usize = 0;
                while i < members.len()
                    invariant
                        i <= members.len(),
                        out@.len() == i,
                        forall|j: int|
                            0 <= j < i ==> (#[trigger] out@[j]).0@ == members@[j].0@
                                && out@[j].1.model_of() == members@[j].1.model_of(),
                    decreases members.len() - i,
                {
                    out.push((members[i].0.clone(), members[i].1.dup()));
                    i += 1;
                }
                let r = Value::Object(out);
                assert(r.model_of()->Object_0 =~= self.model_of()->Object_0);
                r
            },
        }
    }

    #[verifier::loop_isolation(false)]
    fn same(&self, other: &Value) -> (b: bool)
        ensures
            b == (self.model_of() == other.model_of()),
        decreases self,
    {
        match (self, other) {
            (Value::Null, Value::Null) => true,
            (Value::Bool(a), Value::Bool(b)) => *a == *b,
            (Value::Number(a), Value::Number(b)) => a.equals(b),
            (Value::String(a), Value::String(b)) => *a == *b,
            (Value::Array(a), Value::Array(b)) => {
                if a.len() != b.len() {
                    assert(self.model_of()->Array_0.len() != other.model_of()->Array_0.len());
                    return false;
                }
                let mut i: usize = 0;
                while i < a.len()
                    invariant
                        i <= a.len(),
                        a.len() == b.len(),
                        forall|j: int|
                            0 <= j < i ==> (#[trigger] a@[j]).model_of() == b@[j].model_of(),
                    decreases a.len() - i,
                {
                    if !a[i].same(&b[i]) {
                        assert(self.model_of()->Array_0[i as int] != other.model_of()->Array_0[i as int]);
                        return false;
                    }
                    i += 1;
                }
                assert(self.model_of()->Array_0 =~= other.model_of()->Array_0);
                true
            },
            (Value::Object(a), Value::Object(b)) => {
                if a.len() != b.len() {
                    assert(self.model_of()->Object_0.len() != other.model_of()->Object_0.len());
                    return false;
                }
                let mut i: usize = 0;
                while i < a.len()
                    invariant
                        i <= a.len(),
                        a.len() == b.len(),
                        forall|j: int|
                            0 <= j < i ==> (#[trigger] a@[j]).0@ == b@[j].0@ && a@[j].1.model_of()
                                == b@[j].1.model_of(),
                    decreases a.len() - i,
                {
                    let same_key = a[i].0 == b[i].0;
                    if !same_key || !a[i].1.same(&b[i].1) {
                        assert(self.model_of()->Object_0[i as int] != other.model_of()->Object_0[i as int]);
                        return false;
                    }
                    i += 1;
                }
                assert(self.model_of()->Object_0 =~= other.model_of()->Object_0);
                true
            },
            _ => false,
        }
    }

    /// The number this value counts as in arithmetic, if any.
    pub fn as_number(&self) -> (r: Option<Number>)
        ensures
            crate::number::units_of(r) == number_of(self.model_of()),
    {
        match self {
            Value::Number(n) => Some(*n),
            Value::String(s) => {
                let t = trimmed_chars(s.as_str());
                Number::parse_chars(&t)
            },
            Value::Bool(b) => Some(Number::from_bool(*b)),
            _ => None,
        }
    }
}

impl Model for Value {
    type M = ValueModel;

    open spec fn model(&self) -> ValueModel {
        self.model_of()
    }

    fn copy_of(&self) -> (r: Self) {
        self.dup()
    }

    fn same_as(&self, other: &Self) -> (b: bool) {
        self.same(other)
    }
}

fn append_chars(out: &mut Vec<char>, more: &Vec<char>)
    ensures
        final(out)@ == old(out)@ + more@,
{
    let mut i: usize = 0;
    while i < more.len()
        invariant
            i <= more.len(),
            out@ == old(out)@ + more@.take(i as int),
        decreases more.len() - i,
    {
        out.push(more[i]);
        assert(more@.take(i as int).push(more@[i as int]) =~= more@.take(i + 1));
        assert(out@ =~= old(out)@ + more@.take(i + 1));
        i += 1;
    }
    assert(more@.take(more@.len() as int) =~= more@);
}

fn bool_chars(b: bool) -> (r: Vec<char>)
    ensures
        r@ == bool_text(b),
{
    let mut out: Vec<char> = Vec::new();
    if b {
        out.push('t');
        out.push('r');
        out.push('u');
        out.push('e');
    } else {
        out.push('f');
        out.push('a');
        out.push('l');
        out.push('s');
        out.push('e');
    }
    assert(out@ =~= bool_text(b));
    out
}

/// The compact JSON text of `v`, as characters.
#[verifier::loop_isolation(false)]
pub fn json_chars(v: &Value) -> (r: Vec<char>)
    ensures
        r@ == json_text(v.model_of()),
    decreases v,
{
    match v {
        Value::Null => {
            let mut out: Vec<char> = Vec::new();
            out.push('n');
            out.push('u');
            out.push('l');
            out.push('l');
            assert(out@ =~= seq!['n', 'u', 'l', 'l']);
            out
        },
        Value::Bool(b) => bool_chars(*b),
        Value::Number(n) => n.to_chars(),
        Value::String(s) => {
            let q = json_quote(s.as_str());
            chars_of(q.as_str())
        },
        Value::Array(items) => {
            let ghost m = v.model_of()->Array_0;
            let mut out: Vec<char> = Vec::new();
            out.push('[');
            let mut i: usize = 0;
            while i < items.len()
                invariant
                    i <= items.len(),
                    m.len() == items@.len(),
                    forall|j: int| 0 <= j < items@.len() ==> #[trigger] m[j] == items@[j].model_of(),
                    out@ + json_items(m, i as int) == seq!['['] + json_items(m, 0),
                decreases items.len() - i,
            {
                let ghost before = out@;
                if i > 0 {
                    out.push(',');
                }
                let piece = json_chars(&items[i]);
                append_chars(&mut out, &piece);
                assert(out@ + json_items(m, i + 1) =~= before + json_items(m, i as int));
                i += 1;
            }
            assert(out@ + json_items(m, i as int) =~= out@);
            out.push(']');
            out
        },
        Value::Object(members) => {
            let ghost m = v.model_of()->Object_0;
            let mut out: Vec<char> = Vec::new();
            out.push('{');
            let mut i: usize = 0;
            while i < members.len()
                invariant
                    i <= members.len(),
                    m.len() == members@.len(),
                    forall|j: int|
                        0 <= j < members@.len() ==> #[trigger] m[j] == (
                            members@[j].0@,
                            members@[j].1.model_of(),
                        ),
                    out@ + json_members(m, i as int) == seq!['{'] + json_members(m, 0),
                decreases members.len() - i,
            {
                let ghost before = out@;
                if i > 0 {
                    out.push(',');
                }
                let q = json_quote(members[i].0.as_str());
                let key = chars_of(q.as_str());
                append_chars(&mut out, &key);
                out.push(':');
                let piece = json_chars(&members[i].1);
                append_chars(&mut out, &piece);
                assert(out@ + json_members(m, i + 1) =~= before + json_members(m, i as int));
                i += 1;
            }
            assert(out@ + json_members(m, i as int) =~= out@);
            out.push('}');
            out
        },
    }
}

/// The display text of `v`, as characters.
pub fn display_chars(v: &Value) -> (r: Vec<char>)
    ensures
        r@ == display_text(v.model_of()),
{
    match v {
        Value::String(s) => chars_of(s.as_str()),
        Value::Number(n) => n.to_chars(),
        Value::Bool(b) => bool_chars(*b),
        Value::Null => Vec::new(),
        _ => json_chars(v),
    }
}

/// Formats a value for display in a cell.
pub fn display_value(value: &Value) -> (r: String)
    ensures
        r@ == display_text(value.model_of()),
{
    match value {
        Value::String(s) => s.clone(),
        _ => {
            let v = display_chars(value);
            text_of(&v)
        },
    }
}

/// The text under which a row is filed by this key value.
pub fn value_to_key_string(v: &Value) -> (r: String)
    ensures
        r@ == key_text(v.model_of()),
{
    match v {
        Value::String(s) => s.clone(),
        Value::Number(n) => n.to_text(),
        Value::Bool(b) => {
            let c = bool_chars(*b);
            text_of(&c)
        },
        _ => {
            let c = json_chars(v);
            text_of(&c)
        },
    }
}

/// Reads typed input as a value.
pub fn parse_cell_input(input: &str) -> (r: Value)
    ensures
        r.model_of() == parsed_input(input@),
{
    let t = trimmed_chars(input);
    let null_word = chars_of("null");
    let true_word = chars_of("true");
    let false_word = chars_of("false");
    if t.len() == 0 || equal_ignoring_case(&t, &null_word) {
        return Value::Null;
    }
    if equal_ignoring_case(&t, &true_word) {
        return Value::Bool(true);
    }
    if equal_ignoring_case(&t, &false_word) {
        return Value::Bool(false);
    }
    let n: usize = t.len();
    if n >= 2 && t[0] == '"' && t[n - 1] == '"' {
        let text = text_of(&t);
        match json_unquote(text.as_str()) {
            Some(s) => {
                return Value::String(s);
            },
            None => {},
        }
    }
    if n >= 2 && t[0] == '\'' && t[n - 1] == '\'' {
        return Value::String(crate::text::text_of_range(&t, 1, n - 1));
    }
    match Number::parse_chars(&t) {
        Some(num) => Value::Number(num),
        None => Value::String(text_of(&t)),
    }
}

/// The rank of a value's kind in the sort order.
pub fn type_rank(value: &Value) -> (r: u8)
    ensures
        r == type_rank_of(value.model_of()),
{
    match value {
        Value::Null => 0,
        Value::Bool(_) => 1,
        Value::Number(_) => 2,
        Value::String(_) => 3,
        Value::Array(_) => 4,
        Value::Object(_) => 5,
    }
}

/// The order of two present values.
pub fn compare_value_pair(left: &Value, right: &Value) -> (r: Relation)
    ensures
        r == pair_relation(left.model_of(), right.model_of()),
{
    match (left, right) {
        (Value::Null, Value::Null) => Relation::Same,
        (Value::Bool(a), Value::Bool(b)) => {
            if *a == *b {
                Relation::Same
            } else if *b {
                Relation::Before
            } else {
                Relation::After
            }
        },
        (Value::Number(a), Value::Number(b)) => a.relate(b),
        (Value::String(a), Value::String(b)) => {
            let x = lowered(&chars_of(a.as_str()));
            let y = lowered(&chars_of(b.as_str()));
            relate(&x, &y)
        },
        _ => {
            let lr = type_rank(left);
            let rr = type_rank(right);
            if lr < rr {
                Relation::Before
            } else if lr > rr {
                Relation::After
            } else {
                let x = display_chars(left);
                let y = display_chars(right);
                relate(&x, &y)
            }
        },
    }
}

/// The model of a value that may be absent.
pub open spec fn model_of_ref(v: Option<&Value>) -> Option<ValueModel> {
    match v {
        Some(x) => Some(x.model_of()),
        None => None,
    }
}

/// The order used to sort rows by a column.
pub fn compare_values(a: Option<&Value>, b: Option<&Value>) -> (r: Relation)
    ensures
        r == value_relation(model_of_ref(a), model_of_ref(b)),
{
    match (a, b) {
        (None, None) => Relation::Same,
        (None, Some(_)) => Relation::Before,
        (Some(_), None) => Relation::After,
        (Some(left), Some(right)) => compare_value_pair(left, right),
    }
}

} // verus!

verus! {

/// The JSON text of a value laid out over lines: each item of an array and
/// each member of an object on a line of its own, indented by two spaces more
/// than what holds it. `indent` is the indentation of the line on which the
/// value starts.
pub open spec fn pretty_text(v: ValueModel, indent: Seq<char>) -> Seq<char>
    decreases v, 0nat,
{
    match v {
        ValueModel::Array(items) => if items.len() == 0 {
            seq!['[', ']']
        } else {
            seq!['[', '\n'] + pretty_items(items, 0, indent + seq![' ', ' ']) + seq!['\n'] + indent
                + seq![']']
        },
        ValueModel::Object(members) => if members.len() == 0 {
            seq!['{', '}']
        } else {
            seq!['{', '\n'] + pretty_members(members, 0, indent + seq![' ', ' ']) + seq!['\n']
                + indent + seq!['}']
        },
        _ => json_text(v),
    }
}

/// The items from index `i` on, each on its line behind `indent`.
pub open spec fn pretty_items(items: Seq<ValueModel>, i: int, indent: Seq<char>) -> Seq<char>
    decreases items, items.len() - i,
{
    if 0 <= i < items.len() {
        let comma = if i > 0 {
            seq![',', '\n']
        } else {
            Seq::<char>::empty()
        };
        comma + indent + pretty_text(items[i], indent) + pretty_items(items, i + 1, indent)
    } else {
        Seq::<char>::empty()
    }
}

/// The members from index `i` on, each on its line behind `indent`, as its
/// quoted name, a colon, a space and its value.
pub open spec fn pretty_members(
    members: Seq<(Seq<char>, ValueModel)>,
    i: int,
    indent: Seq<char>,
) -> Seq<char>
    decreases members, members.len() - i,
{
    if 0 <= i < members.len() {
        let comma = if i > 0 {
            seq![',', '\n']
        } else {
            Seq::<char>::empty()
        };
        comma + indent + json_quoted(members[i].0) + seq![':', ' '] + pretty_text(
            members[i].1,
            indent,
        ) + pretty_members(members, i + 1, indent)
    } else {
        Seq::<char>::empty()
    }
}

/// The JSON text of `v` laid out over lines, as characters.
#[verifier::loop_isolation(false)]
pub fn pretty_chars(v: &Value, indent: &Vec<char>) -> (r: Vec<char>)
    ensures
        r@ == pretty_text(v.model_of(), indent@),
    decreases v,
{
    match v {
        Value::Array(items) => {
            let ghost m = v.model_of()->Array_0;
            let mut out: Vec<char> = Vec::new();
            out.push('[');
            if items.len() == 0 {
                out.push(']');
                assert(out@ =~= seq!['[', ']']);
                return out;
            }
            out.push('\n');
            let mut inner: Vec<char> = Vec::new();
            append_chars(&mut inner, indent);
            inner.push(' ');
            inner.push(' ');
            assert(inner@ =~= indent@ + seq![' ', ' ']);
            let mut i: usize = 0;
            assert(out@ =~= seq!['[', '\n']);
            while i < items.len()
                invariant
                    i <= items.len(),
                    out@ + pretty_items(m, i as int, inner@) == seq!['[', '\n'] + pretty_items(
                        m,
                        0,
                        inner@,
                    ),
                decreases items.len() - i,
            {
                let ghost before = out@;
                if i > 0 {
                    out.push(',');
                    out.push('\n');
                }
                append_chars(&mut out, &inner);
                let piece = pretty_chars(&items[i], &inner);
                append_chars(&mut out, &piece);
                assert(out@ + pretty_items(m, i + 1, inner@) =~= before + pretty_items(
                    m,
                    i as int,
                    inner@,
                ));
                i += 1;
            }
            assert(out@ + pretty_items(m, i as int, inner@) =~= out@);
            out.push('\n');
            append_chars(&mut out, indent);
            out.push(']');
            assert(out@ =~= pretty_text(v.model_of(), indent@));
            out
        },
        Value::Object(members) => {
            let ghost m = v.model_of()->Object_0;
            let mut out: Vec<char> = Vec::new();
            out.push('{');
            if members.len() == 0 {
                out.push('}');
                assert(out@ =~= seq!['{', '}']);
                return out;
            }
            out.push('\n');
            let mut inner: Vec<char> = Vec::new();
            append_chars(&mut inner, indent);
            inner.push(' ');
            inner.push(' ');
            assert(inner@ =~= indent@ + seq![' ', ' ']);
            let mut i: usize = 0;
            assert(out@ =~= seq!['{', '\n']);
            while i < members.len()
                invariant
                    i <= members.len(),
                    out@ + pretty_members(m, i as int, inner@) == seq!['{', '\n'] + pretty_members(
                        m,
                        0,
                        inner@,
                    ),
                decreases members.len() - i,
            {
                let ghost before = out@;
                if i > 0 {
                    out.push(',');
                    out.push('\n');
                }
                append_chars(&mut out, &inner);
                let q = json_quote(members[i].0.as_str());
                let key = chars_of(q.as_str());
                append_chars(&mut out, &key);
                out.push(':');
                out.push(' ');
                let piece = pretty_chars(&members[i].1, &inner);
                append_chars(&mut out, &piece);
                assert(out@ + pretty_members(m, i + 1, inner@) =~= before + pretty_members(
                    m,
                    i as int,
                    inner@,
                ));
                i += 1;
            }
            assert(out@ + pretty_members(m, i as int, inner@) =~= out@);
            out.push('\n');
            append_chars(&mut out, indent);
            out.push('}');
            assert(out@ =~= pretty_text(v.model_of(), indent@));
            out
        },
        _ => json_chars(v),
    }
}

/// The JSON text of a value, laid out over lines.
pub fn to_pretty_text(v: &Value) -> (r: String)
    ensures
        r@ == pretty_text(v.model_of(), Seq::<char>::empty()),
{
    let indent: Vec<char> = Vec::new();
    let chars = pretty_chars(v, &indent);
    text_of(&chars)
}

/// The compact JSON text of a value.
pub fn to_compact_text(v: &Value) -> (r: String)
    ensures
        r@ == json_text(v.model_of()),
{
    let chars = json_chars(v);
    text_of(&chars)
}

} // verus!

verus! {

/// Two numbers stand to each other in the sort as their magnitudes do,
/// however large they are: different numbers are never taken for the same.
pub proof fn lemma_numbers_are_told_apart(a: int, b: int)
    ensures
        value_relation(Some(ValueModel::Number(a)), Some(ValueModel::Number(b))) == relation_of(
            a,
            b,
        ),
        a < b ==> value_relation(Some(ValueModel::Number(a)), Some(ValueModel::Number(b)))
            == Relation::Before,
        a != b ==> value_relation(Some(ValueModel::Number(a)), Some(ValueModel::Number(b)))
            != Relation::Same,
{
}

} // verus!
