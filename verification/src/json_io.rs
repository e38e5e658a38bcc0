//! The data file: a JSON array of objects, and nothing else.

use vstd::prelude::*;
use crate::data_model::{Row, RowModel, TableData, TableModel};
use crate::model::Model;
use crate::strmap::{lemma_sorted_pairs, pairs_map, sorted_keys, sorted_pairs, StrMap};
use crate::value::{Value, ValueModel};

verus! {

broadcast use vstd::std_specs::vec::group_vec_axioms;

/// Why a data file could not be loaded or saved.
#[derive(Debug, PartialEq)]
pub enum JsonIoError {
    /// The file could not be read or written.
    Io(String),
    /// The file holds no JSON.
    Parse(String),
    /// The JSON is no array.
    NotAnArray,
    /// Some item of the array is no object.
    NotArrayOfObjects,
}

/// The kinds of failure of a data file.
#[derive(Clone, Copy, Debug, PartialEq, Eq, Structural)]
pub enum JsonFault {
    Io,
    Parse,
    NotAnArray,
    NotArrayOfObjects,
}

/// The kind of a failure.
pub open spec fn fault_of(e: JsonIoError) -> JsonFault {
    match e {
        JsonIoError::Io(_) => JsonFault::Io,
        JsonIoError::Parse(_) => JsonFault::Parse,
        JsonIoError::NotAnArray => JsonFault::NotAnArray,
        JsonIoError::NotArrayOfObjects => JsonFault::NotArrayOfObjects,
    }
}

impl JsonIoError {
    /// The kind of the failure.
    pub fn fault(&self) -> (r: JsonFault)
        ensures
            r == fault_of(*self),
    {
        match self {
            JsonIoError::Io(_) => JsonFault::Io,
            JsonIoError::Parse(_) => JsonFault::Parse,
            JsonIoError::NotAnArray => JsonFault::NotAnArray,
            JsonIoError::NotArrayOfObjects => JsonFault::NotArrayOfObjects,
        }
    }
}

/// The row that the members of an object make: each name once, with the value
/// of its last member of that name.
pub open spec fn members_map(members: Seq<(Seq<char>, ValueModel)>, n: int) -> Map<
    Seq<char>,
    ValueModel,
>
    decreases n,
{
    if n <= 0 {
        Map::empty()
    } else if n <= members.len() {
        members_map(members, n - 1).insert(members[n - 1].0, members[n - 1].1)
    } else {
        members_map(members, n - 1)
    }
}

/// The row that an object stands for.
pub open spec fn row_of_object(members: Seq<(Seq<char>, ValueModel)>) -> RowModel {
    sorted_pairs(members_map(members, members.len() as int))
}

/// The rows that the first `n` items of an array stand for, if all are objects.
pub open spec fn rows_upto(items: Seq<ValueModel>, n: int) -> Option<TableModel>
    decreases n,
{
    if n <= 0 {
        Some(Seq::empty())
    } else {
        match (rows_upto(items, n - 1), items[n - 1]) {
            (Some(rows), ValueModel::Object(members)) => Some(rows.push(row_of_object(members))),
            _ => None,
        }
    }
}

/// The table that a JSON value stands for: the rows of an array of objects.
pub open spec fn table_of_json(v: ValueModel) -> Result<TableModel, JsonFault> {
    match v {
        ValueModel::Array(items) => match rows_upto(items, items.len() as int) {
            Some(rows) => Ok(rows),
            None => Err(JsonFault::NotArrayOfObjects),
        },
        _ => Err(JsonFault::NotAnArray),
    }
}

/// The JSON value of a table: an array with an object for each row, the
/// members of each in key order.
pub open spec fn json_of_table(data: TableModel) -> ValueModel {
    ValueModel::Array(Seq::new(data.len(), |i: int| ValueModel::Object(data[i])))
}

/// The outcome of reading a table, as models.
pub open spec fn table_result_model(r: Result<TableData, JsonIoError>) -> Result<
    TableModel,
    JsonFault,
> {
    match r {
        Ok(rows) => Ok(rows.model()),
        Err(e) => Err(fault_of(e)),
    }
}

fn row_from_members(members: &Vec<(String, Value)>) -> (r: Row)
    ensures
        r.model() == row_of_object(
            Seq::new(members@.len(), |i: int| (members@[i].0@, members@[i].1.model())),
        ),
{
    let ghost m = Seq::new(members@.len(), |i: int| (members@[i].0@, members@[i].1.model()));
    let mut row: Row = StrMap::new();
    let mut i: usize = 0;
    while i < members.len()
        invariant
            i <= members.len(),
            m == Seq::new(members@.len(), |i: int| (members@[i].0@, members@[i].1.model())),
            row.map() == members_map(m, i as int),
        decreases members.len() - i,
    {
        row.insert(members[i].0.clone(), members[i].1.copy_of());
        i += 1;
    }
    let n = row.len();
    proof {
        lemma_sorted_pairs(row.pairs());
    }
    row
}

/// Reads a table from a JSON value: the value must be an array, and each of
/// its items an object.
#[verifier::loop_isolation(false)]
pub fn rows_from_json(value: &Value) -> (r: Result<TableData, JsonIoError>)
    ensures
        table_result_model(r) == table_of_json(value.model()),
{
    match value {
        Value::Array(items) => {
            let ghost im = value.model()->Array_0;
            let mut rows: TableData = Vec::new();
            let mut i: usize = 0;
            assert(rows.model() =~= Seq::<RowModel>::empty());
            while i < items.len()
                invariant
                    i <= items.len(),
                    im.len() == items@.len(),
                    forall|a: int| 0 <= a < items@.len() ==> #[trigger] im[a] == items@[a].model(),
                    rows_upto(im, i as int) == Some(rows.model()),
                decreases items.len() - i,
            {
                match &items[i] {
                    Value::Object(members) => {
                        let ghost before = rows.model();
                        let row = row_from_members(members);
                        proof {
                            assert(im[i as int] == items@[i as int].model());
                            assert(im[i as int]->Object_0 =~= Seq::new(
                                members@.len(),
                                |k: int| (members@[k].0@, members@[k].1.model()),
                            ));
                        }
                        rows.push(row);
                        assert(rows.model() =~= before.push(row_of_object(im[i as int]->Object_0)));
                    },
                    _ => {
                        proof {
                            assert(im[i as int] == items@[i as int].model());
                            lemma_rows_upto_fails(im, i + 1, items@.len() as int);
                        }
                        return Err(JsonIoError::NotArrayOfObjects);
                    },
                }
                i += 1;
            }
            Ok(rows)
        },
        _ => Err(JsonIoError::NotAnArray),
    }
}

proof fn lemma_rows_upto_fails(items: Seq<ValueModel>, at: int, n: int)
    requires
        0 < at <= n,
        rows_upto(items, at) is None,
    ensures
        rows_upto(items, n) is None,
    decreases n - at,
{
    if at < n {
        lemma_rows_upto_fails(items, at, n - 1);
    }
}

fn members_of_row(row: &Row) -> (r: Vec<(String, Value)>)
    ensures
        Seq::new(r@.len(), |i: int| (r@[i].0@, r@[i].1.model())) == row.model(),
{
    let n = row.len();
    let mut out: Vec<(String, Value)> = Vec::new();
    let mut i: usize = 0;
    while i < n
        invariant
            i <= n,
            n == row.pairs().len(),
            out@.len() == i,
            forall|k: int|
                0 <= k < i ==> ((#[trigger] out@[k]).0@, out@[k].1.model()) == row.pairs()[k],
        decreases n - i,
    {
        out.push((row.key_at(i).clone(), row.value_at(i).copy_of()));
        i += 1;
    }
    assert(Seq::new(out@.len(), |i: int| (out@[i].0@, out@[i].1.model())) =~= row.model());
    out
}

/// Writes a table as a JSON value.
pub fn rows_to_json(data: &TableData) -> (r: Value)
    ensures
        r.model() == json_of_table(data.model()),
{
    let mut items: Vec<Value> = Vec::new();
    let mut i: usize = 0;
    while i < data.len()
        invariant
            i <= data.len(),
            items@.len() == i,
            forall|k: int|
                0 <= k < i ==> (#[trigger] items@[k]).model() == ValueModel::Object(data.model()[k]),
        decreases data.len() - i,
    {
        let members = members_of_row(&data[i]);
        let item = Value::Object(members);
        proof {
            assert(item.model()->Object_0 =~= data@[i as int].model());
        }
        items.push(item);
        i += 1;
    }
    let r = Value::Array(items);
    proof {
        assert(r.model()->Array_0 =~= json_of_table(data.model())->Array_0);
    }
    r
}

proof fn lemma_members_map_of_sorted(p: RowModel, n: int)
    requires
        sorted_keys(p),
        0 <= n <= p.len(),
    ensures
        members_map(p, n) == pairs_map(p.subrange(0, n)),
        sorted_keys(p.subrange(0, n)),
    decreases n,
{
    let q = p.subrange(0, n);
    assert forall|i: int, j: int| 0 <= i < j < q.len() implies crate::text::text_lt(
        #[trigger] q[i].0,
        #[trigger] q[j].0,
    ) by {
        assert(q[i] == p[i]);
        assert(q[j] == p[j]);
    }
    if n == 0 {
        assert(pairs_map(q) =~= Map::<Seq<char>, ValueModel>::empty());
    } else {
        lemma_members_map_of_sorted(p, n - 1);
        let h = p.subrange(0, n - 1);
        let k = p[n - 1].0;
        assert forall|i: int| 0 <= i < h.len() implies crate::text::text_lt(
            (#[trigger] h[i]).0,
            k,
        ) by {
            assert(h[i] == p[i]);
        }
        if crate::strmap::has_key(h, k) {
            let i = crate::strmap::index_of_key(h, k);
            assert(h[i].0 == k);
            crate::text::lemma_text_order(k, k, k);
        }
        crate::strmap::lemma_insert_pairs(h, n - 1, k, p[n - 1].1);
        assert(h.insert(n - 1, (k, p[n - 1].1)) =~= q);
    }
}

proof fn lemma_rows_upto_of_table(data: TableModel, n: int)
    requires
        0 <= n <= data.len(),
        forall|i: int| 0 <= i < data.len() ==> sorted_keys(#[trigger] data[i]),
    ensures
        rows_upto(json_of_table(data)->Array_0, n) == Some(data.subrange(0, n)),
    decreases n,
{
    let items = json_of_table(data)->Array_0;
    if n == 0 {
        assert(data.subrange(0, 0) =~= Seq::<RowModel>::empty());
    } else {
        lemma_rows_upto_of_table(data, n - 1);
        let p = data[n - 1];
        assert(items[n - 1] == ValueModel::Object(p));
        lemma_members_map_of_sorted(p, p.len() as int);
        assert(p.subrange(0, p.len() as int) =~= p);
        lemma_sorted_pairs(p);
        assert(data.subrange(0, n - 1).push(p) =~= data.subrange(0, n));
    }
}

/// A table that is written as JSON and read back is the table it was.
pub proof fn lemma_json_round_trip(data: TableModel)
    requires
        forall|i: int| 0 <= i < data.len() ==> sorted_keys(#[trigger] data[i]),
    ensures
        table_of_json(json_of_table(data)) == Ok::<TableModel, JsonFault>(data),
{
    lemma_rows_upto_of_table(data, data.len() as int);
    assert(data.subrange(0, data.len() as int) =~= data);
}

} // verus!

verus! {

/// Whether `serde_json` takes the text for JSON.
pub uninterp spec fn json_valid(text: Seq<char>) -> bool;

/// The compact texts of the items of the JSON array that a text denotes; none
/// where it denotes no array.
pub uninterp spec fn json_array_items(text: Seq<char>) -> Option<Seq<Seq<char>>>;

/// The members of the JSON object that a text denotes, each as its name and
/// the compact text of its value, in the order `serde_json` holds them; none
/// where it denotes no object.
pub uninterp spec fn json_object_members(text: Seq<char>) -> Option<Seq<(Seq<char>, Seq<char>)>>;

/// `serde_json::from_str` into a value: whether the text parses.
#[verifier::external_body]
fn is_json(text: &str) -> (r: bool)
    ensures
        r == json_valid(text@),
{
    serde_json::from_str::<serde_json::Value>(text).is_ok()
}

/// `serde_json::from_str` into a list of values, each written back with
/// `to_string`: the items of an array, as compact JSON texts.
#[verifier::external_body]
fn array_items(text: &str) -> (r: Option<Vec<String>>)
    ensures
        r.model() == json_array_items(text@),
{
    match serde_json::from_str::<Vec<serde_json::Value>>(text) {
        Ok(items) => Some(items.iter().map(|item| item.to_string()).collect()),
        Err(_) => None,
    }
}

/// `serde_json::from_str` into a map of values, each written back with
/// `to_string`: the members of an object, as names and compact JSON texts.
#[verifier::external_body]
fn object_members(text: &str) -> (r: Option<Vec<(String, String)>>)
    ensures
        pairs_model(r) == json_object_members(text@),
{
    match serde_json::from_str::<serde_json::Map<String, serde_json::Value>>(text) {
        Ok(members) => Some(members.iter().map(|(k, v)| (k.clone(), v.to_string())).collect()),
        Err(_) => None,
    }
}

/// Names and texts as character sequences.
pub open spec fn pairs_model(r: Option<Vec<(String, String)>>) -> Option<Seq<(Seq<char>, Seq<char>)>> {
    match r {
        Some(v) => Some(Seq::new(v@.len(), |i: int| (v@[i].0@, v@[i].1@))),
        None => None,
    }
}

/// How deep arrays and objects may nest in a text that is read.
pub const MAX_DEPTH: usize = 128;

/// The values that the first `n` item texts denote; none where one denotes none.
pub open spec fn decoded_items(items: Seq<Seq<char>>, n: int, depth: nat) -> Option<Seq<ValueModel>>
    decreases depth, 1nat, n,
{
    if n <= 0 {
        Some(Seq::empty())
    } else if depth == 0 {
        None
    } else {
        match (decoded_items(items, n - 1, depth), decoded(items[n - 1], (depth - 1) as nat)) {
            (Some(head), Some(v)) => Some(head.push(v)),
            _ => None,
        }
    }
}

/// The members that the first `n` member texts denote.
pub open spec fn decoded_members(members: Seq<(Seq<char>, Seq<char>)>, n: int, depth: nat) -> Option<
    Seq<(Seq<char>, ValueModel)>,
>
    decreases depth, 1nat, n,
{
    if n <= 0 {
        Some(Seq::empty())
    } else if depth == 0 {
        None
    } else {
        match (
            decoded_members(members, n - 1, depth),
            decoded(members[n - 1].1, (depth - 1) as nat),
        ) {
            (Some(head), Some(v)) => Some(head.push((members[n - 1].0, v))),
            _ => None,
        }
    }
}

/// The value that a JSON text denotes, read no deeper than `depth`: an array
/// or an object of what its parts denote, a string literal's content, `null`,
/// `true`, `false`, or the decimal that a number's text spells. None where the
/// text is none of these, nests too deep, or spells a number that is no
/// decimal of this library.
pub open spec fn decoded(text: Seq<char>, depth: nat) -> Option<ValueModel>
    decreases depth, 2nat, 0int,
{
    match json_array_items(text) {
        Some(items) => if depth == 0 {
            None
        } else {
            match decoded_items(items, items.len() as int, depth) {
                Some(values) => Some(ValueModel::Array(values)),
                None => None,
            }
        },
        None => match json_object_members(text) {
            Some(members) => if depth == 0 {
                None
            } else {
                match decoded_members(members, members.len() as int, depth) {
                    Some(values) => Some(ValueModel::Object(values)),
                    None => None,
                }
            },
            None => match crate::value::json_unquoted(text) {
                Some(s) => Some(ValueModel::Text(s)),
                None => {
                    let t = crate::text::trim(text);
                    if t == "null"@ {
                        Some(ValueModel::Null)
                    } else if t == "true"@ {
                        Some(ValueModel::Bool(true))
                    } else if t == "false"@ {
                        Some(ValueModel::Bool(false))
                    } else {
                        match crate::number::parse_decimal(t) {
                            Some(u) => Some(ValueModel::Number(u)),
                            None => None,
                        }
                    }
                },
            },
        },
    }
}

/// What reading a table from the text of a data file comes to.
pub open spec fn table_of_text(text: Seq<char>) -> Result<TableModel, JsonFault> {
    if !json_valid(text) {
        Err(JsonFault::Parse)
    } else {
        match decoded(text, MAX_DEPTH as nat) {
            Some(v) => table_of_json(v),
            None => Err(JsonFault::Parse),
        }
    }
}

/// Reads a JSON text as a value, no deeper than `depth`.
#[verifier::loop_isolation(false)]
pub fn decode(text: &str, depth: usize) -> (r: Option<Value>)
    ensures
        r.model() == decoded(text@, depth as nat),
    decreases depth,
{
    match array_items(text) {
        Some(items) => {
            if depth == 0 {
                return None;
            }
            let ghost im = items.model();
            let mut values: Vec<Value> = Vec::new();
            let mut i: usize = 0;
            assert(values.model() =~= Seq::<ValueModel>::empty());
            while i < items.len()
                invariant
                    i <= items.len(),
                    depth > 0,
                    im == items.model(),
                    decoded_items(im, i as int, depth as nat) == Some(values.model()),
                decreases items.len() - i,
            {
                assert(im[i as int] == items@[i as int]@);
                let ghost before = values.model();
                match decode(items[i].as_str(), depth - 1) {
                    Some(v) => {
                        values.push(v);
                        assert(values.model() =~= before.push(v.model()));
                    },
                    None => {
                        proof {
                            lemma_items_fail(im, i + 1, items@.len() as int, depth as nat);
                        }
                        return None;
                    },
                }
                i += 1;
            }
            let r = Value::Array(values);
            assert(r.model()->Array_0 =~= values.model());
            Some(r)
        },
        None => match object_members(text) {
            Some(members) => {
                if depth == 0 {
                    return None;
                }
                let ghost mm = Seq::new(members@.len(), |i: int| (members@[i].0@, members@[i].1@));
                let mut values: Vec<(String, Value)> = Vec::new();
                let mut i: usize = 0;
                while i < members.len()
                    invariant
                        i <= members.len(),
                        depth > 0,
                        mm == Seq::new(members@.len(), |i: int| (members@[i].0@, members@[i].1@)),
                        decoded_members(mm, i as int, depth as nat) == Some(
                            Seq::new(values@.len(), |k: int| (values@[k].0@, values@[k].1.model())),
                        ),
                    decreases members.len() - i,
                {
                    let ghost before = Seq::new(
                        values@.len(),
                        |k: int| (values@[k].0@, values@[k].1.model()),
                    );
                    match decode(members[i].1.as_str(), depth - 1) {
                        Some(v) => {
                            values.push((members[i].0.clone(), v));
                            assert(Seq::new(
                                values@.len(),
                                |k: int| (values@[k].0@, values@[k].1.model()),
                            ) =~= before.push((mm[i as int].0, v.model())));
                        },
                        None => {
                            proof {
                                lemma_members_fail(mm, i + 1, members@.len() as int, depth as nat);
                            }
                            return None;
                        },
                    }
                    i += 1;
                }
                let ghost vm = Seq::new(values@.len(), |k: int| (values@[k].0@, values@[k].1.model()));
                let r = Value::Object(values);
                assert(r.model()->Object_0 =~= vm);
                Some(r)
            },
            None => match crate::value::json_unquote(text) {
                Some(s) => Some(Value::String(s)),
                None => {
                    let t = crate::text::trimmed_chars(text);
                    if crate::text::chars_equal(&t, &crate::text::chars_of("null")) {
                        Some(Value::Null)
                    } else if crate::text::chars_equal(&t, &crate::text::chars_of("true")) {
                        Some(Value::Bool(true))
                    } else if crate::text::chars_equal(&t, &crate::text::chars_of("false")) {
                        Some(Value::Bool(false))
                    } else {
                        match crate::number::Number::parse_chars(&t) {
                            Some(n) => Some(Value::Number(n)),
                            None => None,
                        }
                    }
                },
            },
        },
    }
}

proof fn lemma_items_fail(items: Seq<Seq<char>>, at: int, n: int, depth: nat)
    requires
        0 < at <= n,
        depth > 0,
        decoded_items(items, at, depth) is None,
    ensures
        decoded_items(items, n, depth) is None,
    decreases n - at,
{
    if at < n {
        lemma_items_fail(items, at, n - 1, depth);
    }
}

proof fn lemma_members_fail(members: Seq<(Seq<char>, Seq<char>)>, at: int, n: int, depth: nat)
    requires
        0 < at <= n,
        depth > 0,
        decoded_members(members, at, depth) is None,
    ensures
        decoded_members(members, n, depth) is None,
    decreases n - at,
{
    if at < n {
        lemma_members_fail(members, at, n - 1, depth);
    }
}

/// Reads a JSON text as a value.
pub fn value_from_text(text: &str) -> (r: Option<Value>)
    ensures
        r.model() == if json_valid(text@) {
            decoded(text@, MAX_DEPTH as nat)
        } else {
            None
        },
{
    if !is_json(text) {
        return None;
    }
    decode(text, MAX_DEPTH)
}

/// Reads a table from the text of a data file. Text that is no JSON is a
/// parse error, and so is a number that is no decimal of this library.
pub fn load_rows(text: &str) -> (r: Result<TableData, JsonIoError>)
    ensures
        table_result_model(r) == table_of_text(text@),
{
    match value_from_text(text) {
        Some(value) => rows_from_json(&value),
        None => Err(JsonIoError::Parse("not JSON that a sheet can hold".to_owned())),
    }
}

} // verus!

verus! {

/// Writes a table as the text of a data file: an array of objects laid out
/// over lines, each object's members in key order.
pub fn save_rows(data: &TableData) -> (r: String)
    ensures
        r@ == crate::value::pretty_text(json_of_table(data.model()), Seq::<char>::empty()),
{
    let value = rows_to_json(data);
    crate::value::to_pretty_text(&value)
}

} // verus!
