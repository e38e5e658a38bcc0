//! Comment columns: columns that live in the sidecar only. While a sheet is
//! open their values stand in the rows like any other; they are taken out of
//! what is exported and kept with the metadata instead.

use vstd::prelude::*;
use crate::data_model::{Row, RowModel, TableData};
use crate::jsheet::{remove_from_rows, row_entries, FormatModel, JSheetMeta, MetaModel};
use crate::model::Model;
use crate::strmap::{has_key, lemma_pairs_map, pairs_map, rising, sorted_keys, StrMap};
use crate::columns::{items_upto, lemma_items_upto_all, lemma_items_upto_step};
use crate::text::same_text;
use crate::value::{Value, ValueModel};

verus! {

broadcast use vstd::std_specs::vec::group_vec_axioms;

/// The first `n` formats, those for `column` left out.
pub open spec fn formats_without(formats: Seq<FormatModel>, column: Seq<char>, n: int) -> Seq<
    FormatModel,
>
    decreases n,
{
    if n <= 0 {
        Seq::empty()
    } else {
        let head = formats_without(formats, column, n - 1);
        if n <= formats.len() && formats[n - 1].column != column {
            head.push(formats[n - 1])
        } else {
            head
        }
    }
}

/// What a row holds once the comment values kept for it are laid over it:
/// under each comment column the kept value, else what the row had, else null;
/// under any other column what the row had.
pub open spec fn with_comments(
    row: RowModel,
    kept: RowModel,
    comment_columns: Seq<Seq<char>>,
) -> Map<Seq<char>, ValueModel> {
    Map::new(
        |k: Seq<char>| has_key(row, k) || comment_columns.contains(k),
        |k: Seq<char>|
            if comment_columns.contains(k) && has_key(kept, k) {
                pairs_map(kept)[k]
            } else if has_key(row, k) {
                pairs_map(row)[k]
            } else {
                ValueModel::Null
            },
    )
}

/// What a row holds under the comment columns.
pub open spec fn comments_of(row: RowModel, comment_columns: Seq<Seq<char>>) -> Map<
    Seq<char>,
    ValueModel,
> {
    Map::new(
        |k: Seq<char>| has_key(row, k) && comment_columns.contains(k),
        |k: Seq<char>| pairs_map(row)[k],
    )
}

impl JSheetMeta {
    /// Declares `column` a comment column, or an ordinary one again; then the
    /// comment values kept for it are dropped.
    pub fn set_comment_column(&mut self, column: &str, is_comment: bool)
        ensures
            final(self).model() == (MetaModel {
                comment_columns: final(self).model().comment_columns,
                comment_rows: final(self).model().comment_rows,
                ..old(self).model()
            }),
            rising(final(self).model().comment_columns),
            forall|k: Seq<char>|
                final(self).model().comment_columns.contains(k) <==> if is_comment {
                    old(self).model().comment_columns.contains(k) || k == column@
                } else {
                    old(self).model().comment_columns.contains(k) && k != column@
                },
            is_comment ==> final(self).model().comment_rows == old(self).model().comment_rows,
            final(self).model().comment_rows.len() == old(self).model().comment_rows.len(),
            !is_comment ==> forall|i: int|
                0 <= i < old(self).model().comment_rows.len() ==> pairs_map(
                    #[trigger] final(self).model().comment_rows[i],
                ) == pairs_map(old(self).model().comment_rows[i]).remove(column@),
    {
        let before = self.comment_columns.len();
        if is_comment {
            self.comment_columns.insert(column.to_owned());
        } else {
            self.comment_columns.remove(column);
            remove_from_rows(&mut self.comment_rows, column);
        }
        let after = self.comment_columns.len();
    }

    /// Forgets everything the metadata holds about `column`: its declared
    /// type, its standing as a comment column and the values kept for it, its
    /// summary, its validation rule, its formulas and styles on every row, and
    /// the conditional formats for it.
    pub fn remove_column_metadata(&mut self, column: &str)
        ensures
            final(self).model().column_order == old(self).model().column_order,
            final(self).model().row_key == old(self).model().row_key,
            final(self).model().frozen_columns == old(self).model().frozen_columns,
            pairs_map(final(self).model().columns) == pairs_map(old(self).model().columns).remove(
                column@,
            ),
            pairs_map(final(self).model().summaries) == pairs_map(
                old(self).model().summaries,
            ).remove(column@),
            pairs_map(final(self).model().validation) == pairs_map(
                old(self).model().validation,
            ).remove(column@),
            forall|k: Seq<char>|
                final(self).model().comment_columns.contains(k) <==> old(
                    self,
                ).model().comment_columns.contains(k) && k != column@,
            final(self).model().comment_rows.len() == old(self).model().comment_rows.len(),
            forall|i: int|
                0 <= i < old(self).model().comment_rows.len() ==> pairs_map(
                    #[trigger] final(self).model().comment_rows[i],
                ) == pairs_map(old(self).model().comment_rows[i]).remove(column@),
            final(self).model().cell_formulas.len() == old(self).model().cell_formulas.len(),
            forall|i: int|
                0 <= i < old(self).model().cell_formulas.len() ==> pairs_map(
                    #[trigger] final(self).model().cell_formulas[i],
                ) == pairs_map(old(self).model().cell_formulas[i]).remove(column@),
            final(self).model().cell_styles.len() == old(self).model().cell_styles.len(),
            forall|i: int|
                0 <= i < old(self).model().cell_styles.len() ==> pairs_map(
                    #[trigger] final(self).model().cell_styles[i],
                ) == pairs_map(old(self).model().cell_styles[i]).remove(column@),
            final(self).model().conditional_formats == formats_without(
                old(self).model().conditional_formats,
                column@,
                old(self).model().conditional_formats.len() as int,
            ),
    {
        self.columns.remove(column);
        let before = self.comment_columns.len();
        self.comment_columns.remove(column);
        let after = self.comment_columns.len();
        remove_from_rows(&mut self.comment_rows, column);
        self.summaries.remove(column);
        self.validation.remove(column);
        remove_from_rows(&mut self.cell_formulas, column);
        remove_from_rows(&mut self.cell_styles, column);
        let mut kept: Vec<crate::jsheet::ConditionalFormat> = Vec::new();
        let ghost formats = self.conditional_formats.model();
        let mut i: usize = 0;
        while i < self.conditional_formats.len()
            invariant
                i <= self.conditional_formats.len(),
                formats == self.conditional_formats.model(),
                kept.model() == formats_without(formats, column@, i as int),
            decreases self.conditional_formats.len() - i,
        {
            let format = &self.conditional_formats[i];
            assert(formats[i as int] == format.model());
            if !same_text(format.column.as_str(), column) {
                let ghost before_kept = kept.model();
                kept.push(format.copy_of());
                assert(kept.model() =~= before_kept.push(format.model()));
            }
            i += 1;
        }
        self.conditional_formats = kept;
    }

    /// Lays the comment values kept with the metadata over the rows. Every
    /// row gets a member for every comment column.
    pub fn apply_comment_rows(&self, data: &mut TableData)
        ensures
            final(data).model().len() == old(data).model().len(),
            self.model().comment_columns.len() == 0 ==> final(data).model() == old(data).model(),
            self.model().comment_columns.len() > 0 ==> forall|i: int|
                0 <= i < old(data)@.len() ==> pairs_map(#[trigger] final(data).model()[i])
                    == with_comments(
                    old(data).model()[i],
                    row_entries(self.model().comment_rows, i),
                    self.model().comment_columns,
                ),
    {
        let n = self.comment_columns.len();
        if n == 0 {
            return ;
        }
        let ghost cc = self.model().comment_columns;
        let ghost kept_rows = self.model().comment_rows;
        let mut i: usize = 0;
        while i < data.len()
            invariant
                i <= data.len(),
                data@.len() == old(data)@.len(),
                n == cc.len(),
                n > 0,
                rising(cc),
                cc == self.model().comment_columns,
                cc == self.comment_columns.items(),
                kept_rows == self.model().comment_rows,
                forall|a: int|
                    0 <= a < i ==> pairs_map(#[trigger] data.model()[a]) == with_comments(
                        old(data).model()[a],
                        row_entries(kept_rows, a),
                        cc,
                    ),
                forall|a: int| i <= a < data@.len() ==> #[trigger] data.model()[a] == old(data).model()[a],
            decreases data.len() - i,
        {
            let ghost before = data.model();
            let ghost row0 = before[i as int];
            let ghost kept = row_entries(kept_rows, i as int);
            assert(row0 == data@[i as int].pairs());
            let rl = data[i].len();
            proof {
                lemma_pairs_map(row0);
                lemma_items_upto_step(cc, 0);
                assert(pairs_map(row0) =~= laid_upto(row0, kept, cc, 0));
            }
            let mut j: usize = 0;
            while j < n
                invariant
                    j <= n,
                    i < data.len(),
                    data@.len() == old(data)@.len(),
                    before.len() == data@.len(),
                    n == cc.len(),
                    rising(cc),
                    cc == self.comment_columns.items(),
                    kept_rows == self.model().comment_rows,
                    kept == row_entries(kept_rows, i as int),
                    sorted_keys(row0),
                    forall|a: int|
                        0 <= a < data@.len() && a != i ==> #[trigger] data.model()[a] == before[a],
                    pairs_map(data.model()[i as int]) == laid_upto(row0, kept, cc, j as int),
                decreases n - j,
            {
                let column = self.comment_columns.item_at(j);
                let ghost c = cc[j as int];
                assert(data.model()[i as int] == data@[i as int].pairs());
                let stored: Option<Value> = if i < self.comment_rows.len() {
                    let kl = self.comment_rows[i].len();
                    proof {
                        assert(kept == self.comment_rows@[i as int].pairs());
                        lemma_pairs_map(kept);
                    }
                    match self.comment_rows[i].get(column.as_str()) {
                        Some(v) => Some(v.copy_of()),
                        None => None,
                    }
                } else {
                    assert(!has_key(kept, c));
                    None
                };
                let ghost mid = data.model();
                match stored {
                    Some(v) => {
                        data[i].insert(column.clone(), v);
                    },
                    None => {
                        if !data[i].contains_key(column.as_str()) {
                            data[i].insert(column.clone(), Value::Null);
                        }
                    },
                }
                proof {
                    assert(data.model()[i as int] == data@[i as int].pairs());
                    assert forall|a: int| 0 <= a < data@.len() && a != i implies #[trigger] data.model()[a]
                        == before[a] by {
                        assert(data.model()[a] == mid[a]);
                    }
                    lemma_items_upto_step(cc, j as int);
                    lemma_pairs_map(row0);
                    assert(pairs_map(data.model()[i as int]) =~= laid_upto(row0, kept, cc, j + 1));
                }
                j += 1;
            }
            proof {
                lemma_items_upto_all(cc);
                assert(laid_upto(row0, kept, cc, n as int) =~= with_comments(row0, kept, cc));
            }
            i += 1;
        }
    }

    /// Keeps with the metadata what the rows hold under the comment columns.
    pub fn capture_comment_rows(&mut self, data: &TableData)
        ensures
            final(self).model() == (MetaModel {
                comment_rows: final(self).model().comment_rows,
                ..old(self).model()
            }),
            old(self).model().comment_columns.len() == 0 ==> final(self).model().comment_rows.len()
                == 0,
            old(self).model().comment_columns.len() > 0 ==> final(self).model().comment_rows.len()
                == data@.len() && forall|i: int|
                0 <= i < data@.len() ==> pairs_map(#[trigger] final(self).model().comment_rows[i])
                    == comments_of(data.model()[i], old(self).model().comment_columns),
    {
        let n = self.comment_columns.len();
        if n == 0 {
            self.comment_rows = Vec::new();
            return ;
        }
        let ghost cc = self.model().comment_columns;
        let mut rows: Vec<Row> = Vec::new();
        let mut i: usize = 0;
        while i < data.len()
            invariant
                i <= data.len(),
                n == cc.len(),
                rising(cc),
                cc == self.comment_columns.items(),
                self.model() == old(self).model(),
                n > 0,
                rows@.len() == i,
                forall|a: int|
                    0 <= a < i ==> pairs_map(#[trigger] rows.model()[a]) == comments_of(
                        data.model()[a],
                        cc,
                    ),
            decreases data.len() - i,
        {
            let ghost row = data.model()[i as int];
            assert(row == data@[i as int].pairs());
            let rl = data[i].len();
            let mut kept: Row = StrMap::new();
            proof {
                lemma_pairs_map(row);
                lemma_items_upto_step(cc, 0);
                assert(kept.map() =~= comments_upto(row, cc, 0));
            }
            let mut j: usize = 0;
            while j < n
                invariant
                    j <= n,
                    i < data.len(),
                    n == cc.len(),
                    rising(cc),
                    cc == self.comment_columns.items(),
                    row == data@[i as int].pairs(),
                    sorted_keys(row),
                    kept.map() == comments_upto(row, cc, j as int),
                decreases n - j,
            {
                let column = self.comment_columns.item_at(j);
                match data[i].get(column.as_str()) {
                    Some(v) => {
                        kept.insert(column.clone(), v.copy_of());
                    },
                    None => {},
                }
                proof {
                    lemma_items_upto_step(cc, j as int);
                    lemma_pairs_map(row);
                    assert(kept.map() =~= comments_upto(row, cc, j + 1));
                }
                j += 1;
            }
            proof {
                lemma_items_upto_all(cc);
                assert(comments_upto(row, cc, n as int) =~= comments_of(row, cc));
            }
            let ghost before = rows.model();
            rows.push(kept);
            assert forall|a: int| 0 <= a < i + 1 implies pairs_map(#[trigger] rows.model()[a])
                == comments_of(data.model()[a], cc) by {
                if a < i {
                    assert(rows.model()[a] == before[a]);
                }
            }
            i += 1;
        }
        self.comment_rows = rows;
    }
}

/// `with_comments`, with the first `n` comment columns laid over the row.
pub open spec fn laid_upto(
    row: RowModel,
    kept: RowModel,
    comment_columns: Seq<Seq<char>>,
    n: int,
) -> Map<Seq<char>, ValueModel> {
    Map::new(
        |k: Seq<char>| has_key(row, k) || items_upto(comment_columns, n).contains(k),
        |k: Seq<char>|
            if items_upto(comment_columns, n).contains(k) && has_key(kept, k) {
                pairs_map(kept)[k]
            } else if has_key(row, k) {
                pairs_map(row)[k]
            } else {
                ValueModel::Null
            },
    )
}

/// `comments_of`, for the first `n` comment columns.
pub open spec fn comments_upto(row: RowModel, comment_columns: Seq<Seq<char>>, n: int) -> Map<
    Seq<char>,
    ValueModel,
> {
    Map::new(
        |k: Seq<char>| has_key(row, k) && items_upto(comment_columns, n).contains(k),
        |k: Seq<char>| pairs_map(row)[k],
    )
}

} // verus!
