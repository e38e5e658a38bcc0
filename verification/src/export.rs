//! What a row becomes when it is written out: formulas give way to their
//! values, declared types are enforced, and comment columns stay behind.

use vstd::prelude::*;
use crate::coercion::{coerce_value, coerced};
use crate::columns::{
    items_upto, keys_upto_of, lemma_items_upto_all, lemma_items_upto_step, lemma_keys_upto_all,
    lemma_keys_upto_step, lemma_smaller_key_is_earlier,
};
use crate::data_model::{Row, RowModel};
use crate::evaluate::{cell_value, resolve_cell, FormulaRow};
use crate::jsheet::{entry_of, row_entries, ColumnConstraint, JSheetMeta, MetaModel};
use crate::model::Model;
use crate::strmap::{has_key, lemma_pairs_map, pairs_map, sorted_keys, StrMap, StrSet};
use crate::text::text_lt;
use crate::value::ValueModel;

verus! {

broadcast use vstd::std_specs::vec::group_vec_axioms;

/// Why a row cannot be written out.
#[derive(Debug, PartialEq)]
pub enum ExportError {
    /// The formula of a cell comes to nothing.
    Formula { row_index: usize, column: String },
    /// The value of a cell does not fit the declared type of its column.
    Type { column: String },
}

/// The row with every formula replaced by its value.
pub open spec fn baked(formulas: FormulaRow, row: RowModel) -> Map<Seq<char>, ValueModel> {
    Map::new(
        |k: Seq<char>| has_key(row, k) || has_key(formulas, k),
        |k: Seq<char>|
            match cell_value(formulas, row, k) {
                Some(v) => v,
                None => ValueModel::Null,
            },
    )
}

/// A value as the declared type of its column holds it.
pub open spec fn typed_value(
    columns: Seq<(Seq<char>, ColumnConstraint)>,
    k: Seq<char>,
    v: ValueModel,
) -> Option<ValueModel> {
    match entry_of(columns, k) {
        Some(c) => coerced(v, None, c.value_type),
        None => Some(v),
    }
}

/// The formula of the cell under `k` comes to nothing.
pub open spec fn formula_fails(formulas: FormulaRow, row: RowModel, k: Seq<char>) -> bool {
    has_key(formulas, k) && cell_value(formulas, row, k) is None
}

/// The baked value under `k` does not fit the declared type.
pub open spec fn type_fails(m: MetaModel, formulas: FormulaRow, row: RowModel, k: Seq<char>) -> bool {
    baked(formulas, row).contains_key(k) && typed_value(m.columns, k, baked(formulas, row)[k])
        is None
}

/// The row as it is written out.
pub open spec fn exported(m: MetaModel, formulas: FormulaRow, row: RowModel) -> Map<
    Seq<char>,
    ValueModel,
> {
    Map::new(
        |k: Seq<char>| baked(formulas, row).contains_key(k) && !m.comment_columns.contains(k),
        |k: Seq<char>|
            match typed_value(m.columns, k, baked(formulas, row)[k]) {
                Some(v) => v,
                None => ValueModel::Null,
            },
    )
}

/// What exporting a row comes to: the row written out, or the first failure.
/// Formulas are looked at before types, and columns in lexicographic order.
pub open spec fn export_outcome(
    m: MetaModel,
    row: RowModel,
    row_index: usize,
    r: Result<Row, ExportError>,
) -> bool {
    let formulas = row_entries(m.cell_formulas, row_index as int);
    match r {
        Ok(out) => {
            &&& out.map() == exported(m, formulas, row)
            &&& forall|k: Seq<char>| !formula_fails(formulas, row, k)
            &&& forall|k: Seq<char>| !type_fails(m, formulas, row, k)
        },
        Err(ExportError::Formula { row_index: at, column }) => {
            &&& at == row_index
            &&& formula_fails(formulas, row, column@)
            &&& forall|k: Seq<char>| text_lt(k, column@) ==> !formula_fails(formulas, row, k)
        },
        Err(ExportError::Type { column }) => {
            &&& forall|k: Seq<char>| !formula_fails(formulas, row, k)
            &&& type_fails(m, formulas, row, column@)
            &&& forall|k: Seq<char>| text_lt(k, column@) ==> !type_fails(m, formulas, row, k)
        },
    }
}

/// The row with the formulas of the first `n` formula columns replaced.
pub open spec fn baked_upto(formulas: FormulaRow, row: RowModel, n: int) -> Map<
    Seq<char>,
    ValueModel,
> {
    Map::new(
        |k: Seq<char>| has_key(row, k) || keys_upto_of(formulas, n).contains(k),
        |k: Seq<char>|
            if keys_upto_of(formulas, n).contains(k) {
                match cell_value(formulas, row, k) {
                    Some(v) => v,
                    None => ValueModel::Null,
                }
            } else {
                pairs_map(row)[k]
            },
    )
}

/// The baked row with the types of the first `n` typed columns enforced.
pub open spec fn typed_upto(
    columns: Seq<(Seq<char>, ColumnConstraint)>,
    formulas: FormulaRow,
    row: RowModel,
    n: int,
) -> Map<Seq<char>, ValueModel> {
    Map::new(
        |k: Seq<char>| baked(formulas, row).contains_key(k),
        |k: Seq<char>|
            if keys_upto_of(columns, n).contains(k) {
                match typed_value(columns, k, baked(formulas, row)[k]) {
                    Some(v) => v,
                    None => ValueModel::Null,
                }
            } else {
                baked(formulas, row)[k]
            },
    )
}

/// The typed row without the first `n` comment columns.
pub open spec fn stripped_upto(
    m: MetaModel,
    formulas: FormulaRow,
    row: RowModel,
    n: int,
) -> Map<Seq<char>, ValueModel> {
    Map::new(
        |k: Seq<char>|
            baked(formulas, row).contains_key(k) && !items_upto(m.comment_columns, n).contains(k),
        |k: Seq<char>|
            match typed_value(m.columns, k, baked(formulas, row)[k]) {
                Some(v) => v,
                None => ValueModel::Null,
            },
    )
}

impl JSheetMeta {
    /// Writes out the row that stands at `row_index`: every cell with a
    /// formula takes the formula's value, every column with a declared type
    /// is coerced to it, and the comment columns are taken out.
    #[verifier::loop_isolation(false)]
    pub fn export_row_with_formulas(&self, row: &Row, row_index: usize) -> (r: Result<
        Row,
        ExportError,
    >)
        ensures
            export_outcome(self.model(), row.model(), row_index, r),
    {
        let ghost m = self.model();
        let ghost rm = row.model();
        let ghost formulas = row_entries(m.cell_formulas, row_index as int);
        let mut out = row.copy_of();
        let rl = row.len();
        let ol = out.len();
        proof {
            lemma_pairs_map(rm);
            lemma_pairs_map(out.pairs());
        }
        let none: StrMap<String> = StrMap::new();
        let cell_formulas: &StrMap<String> = if row_index < self.cell_formulas.len() {
            &self.cell_formulas[row_index]
        } else {
            &none
        };
        assert(cell_formulas.pairs() == formulas);
        let n = cell_formulas.len();
        proof {
            if n > 0 {
                lemma_keys_upto_step(formulas, 0);
            }
            assert(keys_upto_of(formulas, 0) =~= Set::<Seq<char>>::empty());
            assert(out.map() =~= baked_upto(formulas, rm, 0));
        }
        let mut j: usize = 0;
        while j < n
            invariant
                j <= n,
                n == formulas.len(),
                formulas == cell_formulas.pairs(),
                sorted_keys(formulas),
                sorted_keys(rm),
                rm == row.pairs(),
                out.map() == baked_upto(formulas, rm, j as int),
                forall|k: Seq<char>|
                    keys_upto_of(formulas, j as int).contains(k) ==> !formula_fails(formulas, rm, k),
            decreases n - j,
        {
            let column = cell_formulas.key_at(j);
            let mut stack = StrSet::new();
            let value = resolve_cell(cell_formulas, row, column.as_str(), &mut stack);
            proof {
                lemma_keys_upto_step(formulas, j as int);
                lemma_pairs_map(rm);
            }
            match value {
                Some(v) => {
                    out.insert(column.clone(), v);
                    assert(out.map() =~= baked_upto(formulas, rm, j + 1));
                },
                None => {
                    proof {
                        assert(has_key(formulas, column@)) by {
                            assert(formulas[j as int].0 == column@);
                        }
                        assert forall|k: Seq<char>| text_lt(k, column@) implies !formula_fails(
                            formulas,
                            rm,
                            k,
                        ) by {
                            if has_key(formulas, k) {
                                lemma_smaller_key_is_earlier(formulas, j as int, k);
                            }
                        }
                    }
                    return Err(ExportError::Formula { row_index, column: column.clone() });
                },
            }
            j += 1;
        }
        proof {
            lemma_keys_upto_all(formulas);
            assert(baked_upto(formulas, rm, n as int) =~= baked(formulas, rm)) by {
                assert forall|k: Seq<char>| baked(formulas, rm).contains_key(k) implies baked_upto(
                    formulas,
                    rm,
                    n as int,
                )[k] == baked(formulas, rm)[k] by {
                    if !has_key(formulas, k) {
                        lemma_pairs_map(rm);
                    }
                }
            }
            assert forall|k: Seq<char>| !formula_fails(formulas, rm, k) by {}
        }
        let columns = &self.columns;
        let cn = columns.len();
        let ghost cols = m.columns;
        proof {
            if cn > 0 {
                lemma_keys_upto_step(cols, 0);
            }
            assert(keys_upto_of(cols, 0) =~= Set::<Seq<char>>::empty());
            assert(out.map() =~= typed_upto(cols, formulas, rm, 0));
        }
        let mut c: usize = 0;
        while c < cn
            invariant
                c <= cn,
                cn == cols.len(),
                cols == columns.pairs(),
                cols == m.columns,
                sorted_keys(cols),
                out.map() == typed_upto(cols, formulas, rm, c as int),
                forall|k: Seq<char>|
                    keys_upto_of(cols, c as int).contains(k) ==> !type_fails(m, formulas, rm, k),
            decreases cn - c,
        {
            let column = columns.key_at(c);
            let constraint = columns.value_at(c);
            proof {
                lemma_keys_upto_step(cols, c as int);
                lemma_pairs_map(cols);
                assert(cols[c as int].0 == column@);
                assert(has_key(cols, column@));
            }
            let current = match out.get(column.as_str()) {
                Some(v) => Some(v.copy_of()),
                None => None,
            };
            match current {
                Some(v) => {
                    match coerce_value(&v, None, constraint.value_type) {
                        Some(coerced_value) => {
                            out.insert(column.clone(), coerced_value);
                        },
                        None => {
                            proof {
                                assert forall|k: Seq<char>| text_lt(k, column@) implies !type_fails(
                                    m,
                                    formulas,
                                    rm,
                                    k,
                                ) by {
                                    if has_key(cols, k) {
                                        lemma_smaller_key_is_earlier(cols, c as int, k);
                                    }
                                }
                            }
                            return Err(ExportError::Type { column: column.clone() });
                        },
                    }
                },
                None => {},
            }
            assert(out.map() =~= typed_upto(cols, formulas, rm, c + 1));
            c += 1;
        }
        proof {
            lemma_keys_upto_all(cols);
            assert forall|k: Seq<char>| !type_fails(m, formulas, rm, k) by {}
        }
        let kn = self.comment_columns.len();
        let ghost cc = m.comment_columns;
        proof {
            if kn > 0 {
                lemma_items_upto_step(cc, 0);
            }
            assert(items_upto(cc, 0) =~= Set::<Seq<char>>::empty());
            assert(out.map() =~= stripped_upto(m, formulas, rm, 0));
        }
        let mut x: usize = 0;
        while x < kn
            invariant
                x <= kn,
                kn == cc.len(),
                cc == self.comment_columns.items(),
                cc == m.comment_columns,
                out.map() == stripped_upto(m, formulas, rm, x as int),
            decreases kn - x,
        {
            let column = self.comment_columns.item_at(x);
            out.remove(column.as_str());
            proof {
                lemma_items_upto_step(cc, x as int);
                assert(out.map() =~= stripped_upto(m, formulas, rm, x + 1));
            }
            x += 1;
        }
        proof {
            lemma_items_upto_all(cc);
            assert(stripped_upto(m, formulas, rm, kn as int) =~= exported(m, formulas, rm));
        }
        Ok(out)
    }
}

} // verus!
