//! Column summaries over the rows in view: count, sum, average, least, greatest.

use vstd::prelude::*;
use crate::data_model::{TableData, TableModel};
use crate::evaluate::cell_value;
use crate::jsheet::{entry_of, row_entries, JSheetMeta, MetaModel, SummaryKind};
use crate::model::Model;
use crate::number::{
    decimal_text, quotient_of, rounded_to_millionths, sum_of, units_of, Number, SCALE,
};
use crate::text::Relation;
use crate::value::{number_of, ValueModel};

verus! {

broadcast use vstd::std_specs::vec::group_vec_axioms;

/// The values of `column` on the first `n` rows in view, in that order. A row
/// index that names no row, and a row on which the column is worth nothing,
/// contribute nothing.
pub open spec fn visible_values(
    m: MetaModel,
    data: TableModel,
    visible: Seq<usize>,
    column: Seq<char>,
    n: int,
) -> Seq<ValueModel>
    decreases n,
{
    if n <= 0 {
        Seq::empty()
    } else {
        let head = visible_values(m, data, visible, column, n - 1);
        if n <= visible.len() && visible[n - 1] < data.len() {
            let idx = visible[n - 1] as int;
            match cell_value(row_entries(m.cell_formulas, idx), data[idx], column) {
                Some(v) => head.push(v),
                None => head,
            }
        } else {
            head
        }
    }
}

/// How many values are not null.
pub open spec fn count_present(values: Seq<ValueModel>) -> nat
    decreases values.len(),
{
    if values.len() == 0 {
        0
    } else {
        count_present(values.drop_last()) + if values.last() is Null {
            0nat
        } else {
            1nat
        }
    }
}

/// The values that count as numbers, as numbers.
pub open spec fn numbers_in(values: Seq<ValueModel>) -> Seq<int>
    decreases values.len(),
{
    if values.len() == 0 {
        Seq::empty()
    } else {
        match number_of(values.last()) {
            Some(u) => numbers_in(values.drop_last()).push(u),
            None => numbers_in(values.drop_last()),
        }
    }
}

/// The sum, taken from the left; none once a partial sum is no number.
pub open spec fn total(nums: Seq<int>) -> Option<int>
    decreases nums.len(),
{
    if nums.len() == 0 {
        Some(0)
    } else {
        match total(nums.drop_last()) {
            Some(t) => sum_of(t, nums.last()),
            None => None,
        }
    }
}

/// The least of some numbers.
pub open spec fn least(nums: Seq<int>) -> int
    decreases nums.len(),
{
    if nums.len() <= 1 {
        nums.last()
    } else if least(nums.drop_last()) <= nums.last() {
        least(nums.drop_last())
    } else {
        nums.last()
    }
}

/// The greatest of some numbers.
pub open spec fn greatest(nums: Seq<int>) -> int
    decreases nums.len(),
{
    if nums.len() <= 1 {
        nums.last()
    } else if greatest(nums.drop_last()) >= nums.last() {
        greatest(nums.drop_last())
    } else {
        nums.last()
    }
}

/// A summary figure as text: rounded to six fractional digits, and nothing
/// where the figure is no number.
pub open spec fn figure_text(u: Option<int>) -> Seq<char> {
    match u {
        Some(x) => match rounded_to_millionths(x) {
            Some(r) => decimal_text(r),
            None => Seq::<char>::empty(),
        },
        None => Seq::<char>::empty(),
    }
}

/// The sum over the count, cut after the eighteenth fractional digit.
pub open spec fn average(nums: Seq<int>) -> Option<int> {
    match total(nums) {
        Some(t) => quotient_of(t, nums.len() * SCALE),
        None => None,
    }
}

/// The summary of some values. The count is of the values that are not null;
/// the other kinds are over the values that count as numbers and come to
/// nothing where there is none.
pub open spec fn summary_of(kind: SummaryKind, values: Seq<ValueModel>) -> Option<Seq<char>> {
    let nums = numbers_in(values);
    match kind {
        SummaryKind::Count => Some(decimal_text(count_present(values) * SCALE)),
        _ => if nums.len() == 0 {
            None
        } else {
            Some(
                figure_text(
                    match kind {
                        SummaryKind::Sum => total(nums),
                        SummaryKind::Avg => average(nums),
                        SummaryKind::Min => Some(least(nums)),
                        _ => Some(greatest(nums)),
                    },
                ),
            )
        },
    }
}

/// The summary text of a column over the rows in view; none where the column
/// has no summary.
pub open spec fn summary_text(
    m: MetaModel,
    data: TableModel,
    visible: Seq<usize>,
    column: Seq<char>,
) -> Option<Seq<char>> {
    match entry_of(m.summaries, column) {
        Some(kind) => summary_of(
            kind,
            visible_values(m, data, visible, column, visible.len() as int),
        ),
        None => None,
    }
}

proof fn lemma_push_value(values: Seq<ValueModel>, v: ValueModel)
    ensures
        count_present(values.push(v)) == count_present(values) + if v is Null {
            0nat
        } else {
            1nat
        },
        numbers_in(values.push(v)) == match number_of(v) {
            Some(u) => numbers_in(values).push(u),
            None => numbers_in(values),
        },
        count_present(values) <= values.len(),
        numbers_in(values).len() <= values.len(),
    decreases values.len(),
{
    assert(values.push(v).drop_last() =~= values);
    if values.len() > 0 {
        lemma_push_value(values.drop_last(), values.last());
        assert(values.drop_last().push(values.last()) =~= values);
    }
}

proof fn lemma_push_number(nums: Seq<int>, u: int)
    ensures
        total(nums.push(u)) == match total(nums) {
            Some(t) => sum_of(t, u),
            None => None,
        },
        least(nums.push(u)) == if nums.len() == 0 || u < least(nums) {
            u
        } else {
            least(nums)
        },
        greatest(nums.push(u)) == if nums.len() == 0 || u > greatest(nums) {
            u
        } else {
            greatest(nums)
        },
{
    assert(nums.push(u).drop_last() =~= nums);
}

fn figure(n: Option<Number>) -> (r: String)
    ensures
        r@ == figure_text(units_of(n)),
{
    match n {
        Some(x) => match x.rounded() {
            Some(r) => r.to_text(),
            None => String::new(),
        },
        None => String::new(),
    }
}

impl JSheetMeta {
    /// The summary text of `column` over the rows whose indices `visible_rows`
    /// lists.
    pub fn summary_display_for_column(
        &self,
        data: &TableData,
        visible_rows: &Vec<usize>,
        column: &str,
    ) -> (r: Option<String>)
        ensures
            r.model() == summary_text(self.model(), data.model(), visible_rows@, column@),
    {
        let kind = match self.summary_kind(column) {
            Some(kind) => kind,
            None => {
                return None;
            },
        };
        let ghost m = self.model();
        let ghost d = data.model();
        let ghost values: Seq<ValueModel> = Seq::empty();
        let mut present: usize = 0;
        let mut numbers: usize = 0;
        let mut sum: Option<Number> = Some(Number::zero());
        let mut low: Option<Number> = None;
        let mut high: Option<Number> = None;
        let mut i: usize = 0;
        while i < visible_rows.len()
            invariant
                i <= visible_rows.len(),
                m == self.model(),
                d == data.model(),
                values == visible_values(m, d, visible_rows@, column@, i as int),
                values.len() <= i,
                present == count_present(values),
                numbers == numbers_in(values).len(),
                units_of(sum) == total(numbers_in(values)),
                numbers == 0 ==> low is None && high is None,
                numbers > 0 ==> units_of(low) == Some(least(numbers_in(values))) && units_of(high)
                    == Some(greatest(numbers_in(values))),
            decreases visible_rows.len() - i,
        {
            let idx = visible_rows[i];
            if idx < data.len() {
                assert(d[idx as int] == data@[idx as int].model());
                match self.value_for_cell(&data[idx], idx, column) {
                    Some(v) => {
                        proof {
                            lemma_push_value(values, v.model());
                            match number_of(v.model()) {
                                Some(u) => {
                                    lemma_push_number(numbers_in(values), u);
                                },
                                None => {},
                            }
                            values = values.push(v.model());
                        }
                        if !v.is_null() {
                            present += 1;
                        }
                        match v.as_number() {
                            Some(x) => {
                                sum = match sum {
                                    Some(t) => t.plus(&x),
                                    None => None,
                                };
                                low = match low {
                                    Some(l) => if x.relate(&l) == Relation::Before {
                                        Some(x)
                                    } else {
                                        Some(l)
                                    },
                                    None => Some(x),
                                };
                                high = match high {
                                    Some(h) => if x.relate(&h) == Relation::After {
                                        Some(x)
                                    } else {
                                        Some(h)
                                    },
                                    None => Some(x),
                                };
                                numbers += 1;
                            },
                            None => {},
                        }
                    },
                    None => {},
                }
            }
            i += 1;
        }
        match kind {
            SummaryKind::Count => Some(Number::from_u64(present as u64).to_text()),
            _ => {
                if numbers == 0 {
                    return None;
                }
                let value = match kind {
                    SummaryKind::Sum => sum,
                    SummaryKind::Avg => match sum {
                        Some(t) => t.divided_by(&Number::from_u64(numbers as u64)),
                        None => None,
                    },
                    SummaryKind::Min => low,
                    _ => high,
                };
                Some(figure(value))
            },
        }
    }
}

} // verus!
