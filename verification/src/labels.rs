//! The names by which a surface offers column types and summaries for
//! choosing, the mark it puts on a sorted column, and what it asks of the
//! table to draw a cell.

use vstd::prelude::*;
use crate::data_model::{Row, RowModel};
use crate::jsheet::{entry_of, ColumnType, SummaryKind};
use crate::model::Model;
use crate::strmap::lemma_pairs_map;
use crate::table_state::{shows, SortOrder, SortSpec, SortSpecModel, StateModel, TableState};
use crate::text::{chars_of, contains_chars, lowered, same_text};
use crate::value::display_chars;

verus! {

broadcast use vstd::std_specs::vec::group_vec_axioms;

/// The name of a column type.
pub open spec fn type_label(t: ColumnType) -> Seq<char> {
    match t {
        ColumnType::String => "string"@,
        ColumnType::Number => "number"@,
        ColumnType::Bool => "bool"@,
        ColumnType::Null => "null"@,
    }
}

/// The column type of a name; none for any other text.
pub open spec fn type_of_label(s: Seq<char>) -> Option<ColumnType> {
    if s == "string"@ {
        Some(ColumnType::String)
    } else if s == "number"@ {
        Some(ColumnType::Number)
    } else if s == "bool"@ {
        Some(ColumnType::Bool)
    } else if s == "null"@ {
        Some(ColumnType::Null)
    } else {
        None
    }
}

/// The name of a summary kind.
pub open spec fn kind_label(k: SummaryKind) -> Seq<char> {
    match k {
        SummaryKind::Sum => "sum"@,
        SummaryKind::Avg => "avg"@,
        SummaryKind::Count => "count"@,
        SummaryKind::Min => "min"@,
        SummaryKind::Max => "max"@,
    }
}

/// The summary kind of a name; none for any other text.
pub open spec fn kind_of_label(s: Seq<char>) -> Option<SummaryKind> {
    if s == "sum"@ {
        Some(SummaryKind::Sum)
    } else if s == "avg"@ {
        Some(SummaryKind::Avg)
    } else if s == "count"@ {
        Some(SummaryKind::Count)
    } else if s == "min"@ {
        Some(SummaryKind::Min)
    } else if s == "max"@ {
        Some(SummaryKind::Max)
    } else {
        None
    }
}

/// The name under which a column type is offered.
pub fn column_type_value(column_type: ColumnType) -> (r: &'static str)
    ensures
        r@ == type_label(column_type),
{
    match column_type {
        ColumnType::String => "string",
        ColumnType::Number => "number",
        ColumnType::Bool => "bool",
        ColumnType::Null => "null",
    }
}

/// The column type that a chosen name stands for.
pub fn parse_column_type(value: &str) -> (r: Option<ColumnType>)
    ensures
        r == type_of_label(value@),
{
    if same_text(value, "string") {
        Some(ColumnType::String)
    } else if same_text(value, "number") {
        Some(ColumnType::Number)
    } else if same_text(value, "bool") {
        Some(ColumnType::Bool)
    } else if same_text(value, "null") {
        Some(ColumnType::Null)
    } else {
        None
    }
}

/// The name under which a summary kind is offered.
pub fn summary_kind_value(summary_kind: SummaryKind) -> (r: &'static str)
    ensures
        r@ == kind_label(summary_kind),
{
    match summary_kind {
        SummaryKind::Sum => "sum",
        SummaryKind::Avg => "avg",
        SummaryKind::Count => "count",
        SummaryKind::Min => "min",
        SummaryKind::Max => "max",
    }
}

/// The summary kind that a chosen name stands for.
pub fn parse_summary_kind(value: &str) -> (r: Option<SummaryKind>)
    ensures
        r == kind_of_label(value@),
{
    if same_text(value, "sum") {
        Some(SummaryKind::Sum)
    } else if same_text(value, "avg") {
        Some(SummaryKind::Avg)
    } else if same_text(value, "count") {
        Some(SummaryKind::Count)
    } else if same_text(value, "min") {
        Some(SummaryKind::Min)
    } else if same_text(value, "max") {
        Some(SummaryKind::Max)
    } else {
        None
    }
}

/// A column type is read back from its name, and so is a summary kind.
pub proof fn lemma_labels_round_trip(t: ColumnType, k: SummaryKind)
    ensures
        type_of_label(type_label(t)) == Some(t),
        kind_of_label(kind_label(k)) == Some(k),
{
    reveal_strlit("string");
    reveal_strlit("number");
    reveal_strlit("bool");
    reveal_strlit("null");
    reveal_strlit("sum");
    reveal_strlit("avg");
    reveal_strlit("count");
    reveal_strlit("min");
    reveal_strlit("max");
    assert("string"@.len() == 6 && "number"@.len() == 6 && "bool"@.len() == 4 && "null"@.len()
        == 4);
    assert("string"@[0] == 's' && "number"@[0] == 'n' && "bool"@[0] == 'b' && "null"@[0] == 'n');
    assert("sum"@.len() == 3 && "avg"@.len() == 3 && "count"@.len() == 5 && "min"@.len() == 3
        && "max"@.len() == 3);
    assert("sum"@[0] == 's' && "avg"@[0] == 'a' && "min"@[0] == 'm' && "max"@[0] == 'm');
    assert("min"@[1] == 'i' && "max"@[1] == 'a');
}

/// The mark on a column's header: a sign, and the end of a style name.
#[derive(Clone, Copy, Debug, PartialEq, Eq)]
pub struct SortIndicator {
    pub symbol: &'static str,
    pub class_suffix: &'static str,
}

/// How a column is sorted: ascending, descending, or not the sorted column.
pub open spec fn sorted_as(column: Seq<char>, spec: Option<SortSpecModel>) -> Option<SortOrder> {
    match spec {
        Some(s) => if s.column == column {
            Some(s.order)
        } else {
            None
        },
        None => None,
    }
}

/// The mark on a column's header: a filled triangle pointing up on the
/// column sorted ascending, one pointing down on the column sorted
/// descending, a hollow one on every other column.
pub fn sort_indicator_for_column(col: &str, sort_spec: Option<&SortSpec>) -> (r: SortIndicator)
    ensures
        match sorted_as(
            col@,
            match sort_spec {
                Some(s) => Some(s.model()),
                None => None,
            },
        ) {
            Some(SortOrder::Asc) => r.symbol@ == "\u{25B2}"@ && r.class_suffix@ == "asc"@,
            Some(SortOrder::Desc) => r.symbol@ == "\u{25BC}"@ && r.class_suffix@ == "desc"@,
            None => r.symbol@ == "\u{25BD}"@ && r.class_suffix@ == "none"@,
        },
{
    match sort_spec {
        Some(spec) => {
            if same_text(spec.column.as_str(), col) {
                return match spec.order {
                    SortOrder::Asc => SortIndicator { symbol: "\u{25B2}", class_suffix: "asc" },
                    SortOrder::Desc => SortIndicator { symbol: "\u{25BC}", class_suffix: "desc" },
                };
            }
        },
        None => {},
    }
    SortIndicator { symbol: "\u{25BD}", class_suffix: "none" }
}

/// Whether a stored cell shows a query: the query is not empty, the row has
/// the column, and the value's display text holds the query, ASCII case
/// aside.
pub open spec fn row_shows(row: RowModel, column: Seq<char>, query: Seq<char>) -> bool {
    query.len() > 0 && shows(entry_of(row, column), query)
}

/// Whether the stored value of a row under `column` shows `query`.
pub fn cell_matches_query(row: &Row, column: &str, query: &str) -> (r: bool)
    ensures
        r == row_shows(row.model(), column@, query@),
{
    let needle = lowered(&chars_of(query));
    if needle.len() == 0 {
        return false;
    }
    let members: usize = row.len();
    proof {
        lemma_pairs_map(row.model());
    }
    match row.get(column) {
        Some(value) => {
            let hay = lowered(&display_chars(value));
            contains_chars(&hay, &needle)
        },
        None => false,
    }
}

/// The texts that a column's validation rule admits; none where it has no
/// rule or the rule names no texts.
pub open spec fn admitted_texts(s: StateModel, column: Seq<char>) -> Seq<Seq<char>> {
    match entry_of(s.meta.validation, column) {
        Some(rule) => match rule.enum_values {
            Some(texts) => texts,
            None => Seq::empty(),
        },
        None => Seq::empty(),
    }
}

/// The texts that a column's validation rule admits, for offering them.
pub fn enum_values_for_column(snapshot: &TableState, column: &str) -> (r: Vec<String>)
    ensures
        r.model() == admitted_texts(snapshot.model(), column@),
{
    match snapshot.validation_rule(column) {
        Some(rule) => match &rule.enum_values {
            Some(texts) => texts.copy_of(),
            None => {
                let none: Vec<String> = Vec::new();
                assert(none.model() =~= Seq::<Seq<char>>::empty());
                none
            },
        },
        None => {
            let none: Vec<String> = Vec::new();
            assert(none.model() =~= Seq::<Seq<char>>::empty());
            none
        },
    }
}

/// Whether a column has texts to offer.
pub fn has_enum_options(snapshot: &TableState, column: &str) -> (r: bool)
    ensures
        r == (admitted_texts(snapshot.model(), column@).len() > 0),
{
    enum_values_for_column(snapshot, column).len() > 0
}

} // verus!
