//! The table model: an immutable, columnar, ordered collection of named
//! columns, each holding one element type (strings or numbers) with
//! possibly-missing cells.
//!
//! The library's algorithms need only a handful of operations on a table:
//! column lookup by name, row filtering by an equality predicate on a string
//! column, and group-by-one-column with a sum aggregation; they are all
//! defined and verified here.

use vstd::prelude::*;

use crate::df::{all_present, category_names, cell_views, distinct_stable, views};
use crate::error::Error;
use crate::num::Num;
use crate::text::str_eq;

verus! {

/// The cells of one column: one element type, possibly-missing cells.
#[derive(Debug, PartialEq, Eq)]
pub enum ColumnData {
    /// A column of strings.
    Strs(Vec<Option<String>>),
    /// A column of numbers.
    Nums(Vec<Option<Num>>),
}

/// A named column.
#[derive(Debug, PartialEq, Eq)]
pub struct Column {
    /// The column's name.
    pub name: String,
    /// The column's cells.
    pub data: ColumnData,
}

/// An immutable columnar table.
#[derive(Debug, PartialEq, Eq)]
pub struct Table {
    /// The columns, in order. Every column has the same number of cells.
    pub columns: Vec<Column>,
}

impl ColumnData {
    /// The number of cells.
    pub open spec fn spec_len(self) -> nat {
        match self {
            ColumnData::Strs(v) => v@.len(),
            ColumnData::Nums(v) => v@.len(),
        }
    }

    /// The number of cells.
    pub fn len(&self) -> (r: usize)
        ensures
            r == self.spec_len(),
    {
        match self {
            ColumnData::Strs(v) => v.len(),
            ColumnData::Nums(v) => v.len(),
        }
    }
}

/// The index of the first column of `cols` named `name`, if any.
pub open spec fn col_idx_from(cols: Seq<Column>, name: Seq<char>) -> Option<int>
    decreases cols.len(),
{
    if cols.len() == 0 {
        None
    } else if cols.first().name@ == name {
        Some(0)
    } else {
        match col_idx_from(cols.drop_first(), name) {
            None => None,
            Some(i) => Some(i + 1),
        }
    }
}

/// What [`col_idx_from`] means: `None` exactly when no column bears the
/// name, and `Some(i)` exactly for the leftmost column that does.
pub proof fn lemma_col_idx_from(cols: Seq<Column>, name: Seq<char>)
    ensures
        match col_idx_from(cols, name) {
            None => forall|j: int| 0 <= j < cols.len() ==> cols[j].name@ != name,
            Some(i) => 0 <= i < cols.len() && cols[i].name@ == name && forall|j: int|
                0 <= j < i ==> cols[j].name@ != name,
        },
    decreases cols.len(),
{
    if cols.len() > 0 && cols.first().name@ != name {
        let t = cols.drop_first();
        lemma_col_idx_from(t, name);
        match col_idx_from(t, name) {
            None => {
                assert forall|j: int| 0 <= j < cols.len() implies cols[j].name@ != name by {
                    if j > 0 {
                        assert(t[j - 1] == cols[j]);
                    }
                }
            },
            Some(i) => {
                assert(t[i] == cols[i + 1]);
                assert forall|j: int| 0 <= j < i + 1 implies cols[j].name@ != name by {
                    if j > 0 {
                        assert(t[j - 1] == cols[j]);
                    }
                }
            },
        }
    }
}

impl Table {
    /// The number of rows.
    pub open spec fn spec_height(self) -> nat {
        if self.columns@.len() == 0 {
            0
        } else {
            self.columns@[0].data.spec_len()
        }
    }

    /// Well-formed: every column has the same number of cells.
    pub open spec fn wf(self) -> bool {
        forall|i: int| 0 <= i < self.columns@.len()
            ==> (#[trigger] self.columns@[i]).data.spec_len() == self.spec_height()
    }

    /// The index of the first column named `name`, if any.
    pub open spec fn col_idx(self, name: Seq<char>) -> Option<int> {
        col_idx_from(self.columns@, name)
    }

    /// The number of rows.
    pub fn height(&self) -> (r: usize)
        ensures
            r == self.spec_height(),
    {
        if self.columns.len() == 0 {
            0
        } else {
            self.columns[0].data.len()
        }
    }

    /// Looks the first column named `name` up; fails exactly when no column
    /// bears that name.
    pub fn column(&self, name: &str) -> (r: Result<&Column, Error>)
        ensures
            match r {
                Ok(c) => self.col_idx(name@) is Some && *c == self.columns@[self.col_idx(
                    name@,
                )->0],
                Err(e) => self.col_idx(name@) is None && (e matches Error::ColumnNotFound(s)
                    && s@ == name@),
            },
    {
        let n = self.columns.len();
        let mut i: usize = 0;
        while i < n
            invariant
                n == self.columns@.len(),
                0 <= i <= n,
                forall|j: int| 0 <= j < i ==> self.columns@[j].name@ != name@,
            decreases n - i,
        {
            if str_eq(self.columns[i].name.as_str(), name) {
                proof {
                    lemma_col_idx_from(self.columns@, name@);
                    match col_idx_from(self.columns@, name@) {
                        None => {
                            assert(self.columns@[i as int].name@ != name@);
                        },
                        Some(k) => {
                            if k < i {
                                assert(self.columns@[k].name@ != name@);
                            } else if k > i {
                                assert(self.columns@[i as int].name@ != name@);
                            }
                        },
                    }
                }
                return Ok(&self.columns[i]);
            }
            i += 1;
        }
        proof {
            lemma_col_idx_from(self.columns@, name@);
            if let Some(k) = col_idx_from(self.columns@, name@) {
                assert(self.columns@[k].name@ != name@);
            }
        }
        Err(Error::ColumnNotFound(name.to_owned()))
    }

    /// Restricts the table to the rows whose cell in the string column
    /// `name` is present and equals `category`. Fails exactly when no
    /// column bears that name or the column is not a string column; a
    /// category that matches no row yields a table with zero rows.
    pub fn filter_eq(&self, name: &str, category: &str) -> (r: Result<Table, Error>)
        requires
            self.wf(),
        ensures
            match r {
                Ok(t) => self.col_idx(name@) matches Some(ci) && self.columns@[ci].data
                    matches ColumnData::Strs(kcells) && ({
                    let idx = match_indices(kcells@, category@);
                    &&& t.wf()
                    &&& t.columns@.len() == self.columns@.len()
                    &&& t.spec_height() == idx.len()
                    &&& forall|k: int|
                        0 <= k < t.columns@.len() ==> (#[trigger] t.columns@[k]).name
                            == self.columns@[k].name && is_selection(
                            self.columns@[k].data,
                            idx,
                            t.columns@[k].data,
                        )
                }),
                Err(e) => match self.col_idx(name@) {
                    None => e matches Error::ColumnNotFound(s) && s@ == name@,
                    Some(ci) => self.columns@[ci].data is Nums && (e
                        matches Error::NotStringColumn(s) && s@ == self.columns@[ci].name@),
                },
            },
    {
        let kcol = match self.column(name) {
            Ok(c) => c,
            Err(e) => {
                return Err(e);
            },
        };
        let kcells = match &kcol.data {
            ColumnData::Strs(c) => c,
            ColumnData::Nums(_) => {
                return Err(Error::NotStringColumn(kcol.name.clone()));
            },
        };
        let keep = match_indices_exec(kcells, category);
        let ghost idx = match_indices(kcells@, category@);
        proof {
            lemma_match_indices_bounds(kcells@, category@);
            lemma_col_idx_from(self.columns@, name@);
            assert(self.columns@[self.col_idx(name@)->0].data.spec_len()
                == self.spec_height());
        }
        let ncols = self.columns.len();
        let mut out_cols: Vec<Column> = Vec::new();
        let mut c: usize = 0;
        while c < ncols
            invariant
                self.wf(),
                ncols == self.columns@.len(),
                0 <= c <= ncols,
                idx == match_indices(kcells@, category@),
                kcells@.len() == self.spec_height(),
                forall|k: int| 0 <= k < idx.len() ==> 0 <= #[trigger] idx[k] < kcells@.len(),
                keep@.len() == idx.len(),
                forall|k: int| 0 <= k < keep@.len() ==> #[trigger] keep@[k] == idx[k],
                out_cols@.len() == c,
                forall|k: int|
                    0 <= k < c ==> (#[trigger] out_cols@[k]).name == self.columns@[k].name
                        && is_selection(self.columns@[k].data, idx, out_cols@[k].data),
            decreases ncols - c,
        {
            let col = &self.columns[c];
            let data = match &col.data {
                ColumnData::Strs(cells) => {
                    let mut sel: Vec<Option<String>> = Vec::new();
                    let mut k: usize = 0;
                    while k < keep.len()
                        invariant
                            self.wf(),
                            col == self.columns@[c as int],
                            0 <= c < ncols,
                            ncols == self.columns@.len(),
                            col.data matches ColumnData::Strs(cc) && cc == *cells,
                            cells@.len() == self.spec_height(),
                            0 <= k <= keep@.len(),
                            keep@.len() == idx.len(),
                            forall|m: int| 0 <= m < keep@.len() ==> #[trigger] keep@[m] == idx[m],
                            forall|m: int|
                                0 <= m < idx.len() ==> 0 <= #[trigger] idx[m] < self.spec_height(),
                            sel@.len() == k,
                            forall|m: int| 0 <= m < k ==> #[trigger] sel@[m] == cells@[idx[m]],
                        decreases keep@.len() - k,
                    {
                        sel.push(clone_opt_string(&cells[keep[k]]));
                        k += 1;
                    }
                    ColumnData::Strs(sel)
                },
                ColumnData::Nums(cells) => {
                    let mut sel: Vec<Option<Num>> = Vec::new();
                    let mut k: usize = 0;
                    while k < keep.len()
                        invariant
                            self.wf(),
                            col == self.columns@[c as int],
                            0 <= c < ncols,
                            ncols == self.columns@.len(),
                            col.data matches ColumnData::Nums(cc) && cc == *cells,
                            cells@.len() == self.spec_height(),
                            0 <= k <= keep@.len(),
                            keep@.len() == idx.len(),
                            forall|m: int| 0 <= m < keep@.len() ==> #[trigger] keep@[m] == idx[m],
                            forall|m: int|
                                0 <= m < idx.len() ==> 0 <= #[trigger] idx[m] < self.spec_height(),
                            sel@.len() == k,
                            forall|m: int| 0 <= m < k ==> #[trigger] sel@[m] == cells@[idx[m]],
                        decreases keep@.len() - k,
                    {
                        sel.push(cells[keep[k]]);
                        k += 1;
                    }
                    ColumnData::Nums(sel)
                },
            };
            proof {
                match self.columns@[c as int].data {
                    ColumnData::Strs(cc) => {
                        assert(data->Strs_0@ =~= Seq::new(idx.len(), |m: int| cc@[idx[m]]));
                    },
                    ColumnData::Nums(cc) => {
                        assert(data->Nums_0@ =~= Seq::new(idx.len(), |m: int| cc@[idx[m]]));
                    },
                }
            }
            out_cols.push(Column { name: col.name.clone(), data });
            c += 1;
        }
        let t = Table { columns: out_cols };
        proof {
            if t.columns@.len() > 0 {
                assert(is_selection(self.columns@[0].data, idx, t.columns@[0].data));
            }
            assert forall|k: int| 0 <= k < t.columns@.len() implies (#[trigger] t.columns@[k]).data.spec_len()
                == t.spec_height() by {
                assert(is_selection(self.columns@[k].data, idx, t.columns@[k].data));
            }
        }
        Ok(t)
    }

    /// True when grouping by the string column `key` and summing each of
    /// the numeric columns `vals` succeeds: the key column exists, holds
    /// strings with no missing cell, every value column exists and is
    /// numeric, and every finite group sum stays in machine range.
    pub open spec fn group_by_sum_ok(self, key: Seq<char>, vals: Seq<Seq<char>>) -> bool {
        &&& self.col_idx(key) matches Some(ci)
        &&& self.columns@[self.col_idx(key)->0].data matches ColumnData::Strs(kc)
            && all_present(kc@)
        &&& forall|j: int|
            0 <= j < vals.len() ==> ((#[trigger] self.col_idx(vals[j])) matches Some(cj)
                && self.columns@[cj].data matches ColumnData::Nums(vc) && sums_ok_for(
                vc@,
                self.columns@[self.col_idx(key)->0].data->Strs_0@,
                distinct_stable(cell_views(self.columns@[self.col_idx(key)->0].data->Strs_0@)),
            ))
    }

    /// The error of a failed grouping: which input defect the error names.
    pub open spec fn group_by_sum_err(self, key: Seq<char>, vals: Seq<Seq<char>>, e: Error) -> bool {
        match e {
            Error::ColumnNotFound(s) => self.col_idx(s@) is None && (s@ == key
                || vals.contains(s@)),
            Error::NotStringColumn(s) => self.col_idx(key) matches Some(ci)
                && self.columns@[ci].data is Nums && s@ == self.columns@[ci].name@,
            Error::MissingValue(s) => self.col_idx(key) matches Some(ci)
                && self.columns@[ci].data matches ColumnData::Strs(kc) && !all_present(kc@) && s@
                == self.columns@[ci].name@,
            Error::NotNumericColumn(s) => ({
                &&& vals.contains(s@)
                &&& self.col_idx(s@) matches Some(cj)
                &&& self.columns@[cj].data is Strs
                &&& s@ == self.columns@[cj].name@
            }),
            Error::Overflow => true,
            _ => false,
        }
    }

    /// Groups the table by the string column `key` and sums each column of
    /// `vals` within each group. The result has one row per distinct key,
    /// in first-occurrence order: the key column first, then one summed
    /// column per requested value column. Missing cells contribute zero to
    /// a sum; a non-finite summand makes that group's sum non-finite.
    #[verifier::loop_isolation(false)]
    pub fn group_by_sum(&self, key: &str, vals: &Vec<String>) -> (r: Result<Table, Error>)
        requires
            self.wf(),
        ensures
            match r {
                Ok(t) => self.group_by_sum_ok(key@, views(vals@)) && ({
                    let ci = self.col_idx(key@)->0;
                    let kc = self.columns@[ci].data->Strs_0;
                    let keys = distinct_stable(cell_views(kc@));
                    &&& t.wf()
                    &&& t.columns@.len() == 1 + vals@.len()
                    &&& t.spec_height() == keys.len()
                    &&& t.columns@[0].name == self.columns@[ci].name
                    &&& t.columns@[0].data matches ColumnData::Strs(ko) && all_present(ko@)
                        && cell_views(ko@) == keys
                    &&& forall|j: int|
                        0 <= j < vals@.len() ==> ({
                            &&& (#[trigger] t.columns@[j + 1]).name@ == vals@[j]@
                            &&& t.columns@[j + 1].data matches ColumnData::Nums(sc)
                            &&& all_present(sc@)
                            &&& is_group_sums_col(
                                self.columns@[self.col_idx(vals@[j]@)->0].data->Nums_0@,
                                kc@,
                                keys,
                                sc@,
                            )
                        })
                }),
                Err(e) => !self.group_by_sum_ok(key@, views(vals@)) && self.group_by_sum_err(
                    key@,
                    views(vals@),
                    e,
                ),
            },
    {
        let keys = match category_names(self, key) {
            Ok(v) => v,
            Err(e) => {
                return Err(e);
            },
        };
        let kcol = match self.column(key) {
            Ok(c) => c,
            Err(_) => {
                proof {
                    assert(false);
                }
                // Never reached: the proof above closes this arm.
                return Err(Error::Overflow);
            },
        };
        let kcells = match &kcol.data {
            ColumnData::Strs(c) => c,
            ColumnData::Nums(_) => {
                proof {
                    assert(false);
                }
                // Never reached: the proof above closes this arm.
                return Err(Error::Overflow);
            },
        };
        let ghost gkeys = distinct_stable(cell_views(kcells@));
        proof {
            assert(views(keys@) == gkeys);
            lemma_col_idx_from(self.columns@, key@);
            assert(self.columns@[self.col_idx(key@)->0].data.spec_len() == self.spec_height());
            assert(kcells@.len() == self.spec_height());
        }
        let gn = keys.len();
        let mut keeps: Vec<Vec<usize>> = Vec::new();
        let mut g: usize = 0;
        while g < gn
            invariant
                gn == keys@.len(),
                0 <= g <= gn,
                keeps@.len() == g,
                forall|m: int|
                    0 <= m < g ==> is_idx_vec(
                        (#[trigger] keeps@[m])@,
                        match_indices(kcells@, keys@[m]@),
                    ),
            decreases gn - g,
        {
            let kv = match_indices_exec(kcells, keys[g].as_str());
            keeps.push(kv);
            g += 1;
        }
        let mut kout: Vec<Option<String>> = Vec::new();
        let mut g: usize = 0;
        while g < gn
            invariant
                gn == keys@.len(),
                0 <= g <= gn,
                kout@.len() == g,
                forall|m: int| 0 <= m < g ==> ((#[trigger] kout@[m]) matches Some(s) && s@
                    == keys@[m]@),
            decreases gn - g,
        {
            kout.push(Some(keys[g].clone()));
            g += 1;
        }
        proof {
            assert(cell_views(kout@) =~= gkeys);
        }
        let mut out_cols: Vec<Column> = Vec::new();
        out_cols.push(Column { name: kcol.name.clone(), data: ColumnData::Strs(kout) });
        let jn = vals.len();
        let mut j: usize = 0;
        while j < jn
            invariant
                jn == vals@.len(),
                0 <= j <= jn,
                out_cols@.len() == 1 + j,
                out_cols@[0].name == self.columns@[self.col_idx(key@)->0].name,
                out_cols@[0].data matches ColumnData::Strs(ko) && all_present(ko@)
                    && cell_views(ko@) == gkeys && ko@.len() == gkeys.len(),
                forall|m: int|
                    0 <= m < j ==> ({
                        &&& (#[trigger] self.col_idx(views(vals@)[m])) matches Some(cj)
                        &&& self.columns@[cj].data matches ColumnData::Nums(vc)
                        &&& sums_ok_for(
                            vc@,
                            self.columns@[self.col_idx(key@)->0].data->Strs_0@,
                            distinct_stable(
                                cell_views(self.columns@[self.col_idx(key@)->0].data->Strs_0@),
                            ),
                        )
                    }),
                forall|m: int|
                    0 <= m < j ==> ({
                        &&& (#[trigger] out_cols@[m + 1]).name@ == vals@[m]@
                        &&& out_cols@[m + 1].data matches ColumnData::Nums(sc)
                        &&& all_present(sc@)
                        &&& is_group_sums_col(
                            self.columns@[self.col_idx(vals@[m]@)->0].data->Nums_0@,
                            kcells@,
                            gkeys,
                            sc@,
                        )
                    }),
            decreases jn - j,
        {
            let vcol = match self.column(vals[j].as_str()) {
                Ok(c) => c,
                Err(e) => {
                    proof {
                        assert(views(vals@)[j as int] == vals@[j as int]@);
                        assert(views(vals@).contains(vals@[j as int]@));
                        if self.group_by_sum_ok(key@, views(vals@)) {
                            assert(self.col_idx(views(vals@)[j as int]) is Some);
                        }
                    }
                    return Err(e);
                },
            };
            proof {
                lemma_col_idx_from(self.columns@, vals@[j as int]@);
            }
            let vcells = match &vcol.data {
                ColumnData::Nums(c) => c,
                ColumnData::Strs(_) => {
                    proof {
                        assert(views(vals@)[j as int] == vals@[j as int]@);
                        assert(views(vals@).contains(vals@[j as int]@));
                        if self.group_by_sum_ok(key@, views(vals@)) {
                            assert((self.col_idx(views(vals@)[j as int])) matches Some(cj)
                                && self.columns@[cj].data is Nums);
                        }
                    }
                    return Err(Error::NotNumericColumn(vcol.name.clone()));
                },
            };
            let mut sums: Vec<Option<Num>> = Vec::new();
            let mut g: usize = 0;
            while g < gn
                invariant
                    gn == keys@.len(),
                    gn == keeps@.len(),
                    0 <= g <= gn,
                    vcol.data matches ColumnData::Nums(vv) && vv == *vcells,
                    sums@.len() == g,
                    forall|m: int|
                        0 <= m < gn ==> is_idx_vec(
                            (#[trigger] keeps@[m])@,
                            match_indices(kcells@, keys@[m]@),
                        ),
                    forall|m: int|
                        0 <= m < g ==> (!has_nonfinite(
                            vcells@,
                            #[trigger] match_indices(kcells@, gkeys[m]),
                        ) ==> prefix_sums_ok(vcells@, match_indices(kcells@, gkeys[m]))),
                    forall|m: int|
                        0 <= m < g ==> ((#[trigger] sums@[m]) matches Some(s) && is_group_sum(
                            vcells@,
                            match_indices(kcells@, gkeys[m]),
                            s,
                        )),
                decreases gn - g,
            {
                proof {
                    assert(gkeys[g as int] == keys@[g as int]@);
                    lemma_match_indices_bounds(kcells@, keys@[g as int]@);
                    assert(self.columns@[self.col_idx(vals@[j as int]@)->0].data.spec_len()
                        == self.spec_height());
                    assert(vcells@.len() == kcells@.len());
                }
                let keep = &keeps[g];
                let ghost idx = match_indices(kcells@, keys@[g as int]@);
                let kn = keep.len();
                let mut saw_nf = false;
                let mut k: usize = 0;
                while k < kn
                    invariant
                        kn == idx.len(),
                        0 <= k <= kn,
                        is_idx_vec(keep@, idx),
                        forall|m: int| 0 <= m < idx.len() ==> 0 <= #[trigger] idx[m]
                            < vcells@.len(),
                        saw_nf == exists|m: int|
                            0 <= m < k && vcells@[#[trigger] idx[m]] == Some(Num::NotFinite),
                    decreases kn - k,
                {
                    match vcells[keep[k]] {
                        Some(v) => {
                            match v {
                                Num::NotFinite => {
                                    saw_nf = true;
                                },
                                Num::Finite(_) => {},
                            }
                        },
                        None => {},
                    }
                    proof {
                        if saw_nf && vcells@[idx[k as int]] != Some(Num::NotFinite) {
                            let m = choose|m: int|
                                0 <= m < k && vcells@[#[trigger] idx[m]] == Some(Num::NotFinite);
                            assert(0 <= m < k + 1);
                        }
                    }
                    k += 1;
                }
                if saw_nf {
                    sums.push(Some(Num::NotFinite));
                    proof {
                        assert(has_nonfinite(vcells@, idx));
                    }
                } else {
                    proof {
                        assert(!has_nonfinite(vcells@, idx));
                    }
                    let mut total: i64 = 0;
                    let mut k: usize = 0;
                    while k < kn
                        invariant
                            kn == idx.len(),
                            0 <= k <= kn,
                            is_idx_vec(keep@, idx),
                            !has_nonfinite(vcells@, idx),
                            forall|m: int| 0 <= m < idx.len() ==> 0 <= #[trigger] idx[m]
                                < vcells@.len(),
                            total == idx_sum(vcells@, idx.take(k as int)),
                            forall|p: int|
                                0 <= p <= k ==> i64::MIN <= #[trigger] idx_sum(
                                    vcells@,
                                    idx.take(p),
                                ) <= i64::MAX,
                        decreases kn - k,
                    {
                        proof {
                            lemma_idx_sum_step(vcells@, idx, k as int);
                        }
                        match vcells[keep[k]] {
                            Some(v) => {
                                match v {
                                    Num::NotFinite => {
                                        proof {
                                            assert(vcells@[idx[k as int]] == Some(
                                                Num::NotFinite,
                                            ));
                                            assert(has_nonfinite(vcells@, idx));
                                            assert(false);
                                        }
                                        // Never reached: the proof above closes this arm.
                                        return Err(Error::Overflow);
                                    },
                                    Num::Finite(x) => {
                                        match total.checked_add(x) {
                                            Some(t2) => {
                                                total = t2;
                                            },
                                            None => {
                                                proof {
                                                    assert(idx_sum(
                                                        vcells@,
                                                        idx.take(k as int + 1),
                                                    ) > i64::MAX || idx_sum(
                                                        vcells@,
                                                        idx.take(k as int + 1),
                                                    ) < i64::MIN);
                                                    assert(!prefix_sums_ok(vcells@, idx));
                                                    if self.group_by_sum_ok(key@, views(vals@)) {
                                                        assert(views(vals@)[j as int]
                                                            == vals@[j as int]@);
                                                        assert((self.col_idx(
                                                            views(vals@)[j as int],
                                                        )) matches Some(cj)
                                                            && self.columns@[cj].data
                                                            matches ColumnData::Nums(vc)
                                                            && sums_ok_for(
                                                            vc@,
                                                            self.columns@[self.col_idx(
                                                                key@,
                                                            )->0].data->Strs_0@,
                                                            distinct_stable(
                                                                cell_views(
                                                                    self.columns@[self.col_idx(
                                                                        key@,
                                                                    )->0].data->Strs_0@,
                                                                ),
                                                            ),
                                                        ));
                                                        assert(self.columns@[self.col_idx(
                                                            key@,
                                                        )->0].data->Strs_0@ == kcells@);
                                                        assert(!has_nonfinite(
                                                            vcells@,
                                                            match_indices(
                                                                kcells@,
                                                                gkeys[g as int],
                                                            ),
                                                        ) ==> prefix_sums_ok(
                                                            vcells@,
                                                            match_indices(
                                                                kcells@,
                                                                gkeys[g as int],
                                                            ),
                                                        ));
                                                        assert(false);
                                                    }
                                                }
                                                return Err(Error::Overflow);
                                            },
                                        }
                                    },
                                }
                            },
                            None => {},
                        }
                        k += 1;
                    }
                    proof {
                        assert(idx.take(kn as int) =~= idx);
                    }
                    sums.push(Some(Num::Finite(total)));
                }
                g += 1;
            }
            proof {
                assert(sums_ok_for(vcells@, kcells@, gkeys));
                assert(is_group_sums_col(vcells@, kcells@, gkeys, sums@)) by {
                    assert(forall|m: int|
                        0 <= m < gn ==> ((#[trigger] sums@[m]) matches Some(s2) && is_group_sum(
                            vcells@,
                            match_indices(kcells@, gkeys[m]),
                            s2,
                        )));
                }
                assert(views(vals@)[j as int] == vals@[j as int]@);
                assert(self.col_idx(views(vals@)[j as int]) == self.col_idx(vals@[j as int]@));
                assert(self.columns@[self.col_idx(key@)->0].data->Strs_0@ == kcells@);
                assert(distinct_stable(
                    cell_views(self.columns@[self.col_idx(key@)->0].data->Strs_0@),
                ) == gkeys);
            }
            out_cols.push(Column { name: vcol.name.clone(), data: ColumnData::Nums(sums) });
            j += 1;
        }
        let t = Table { columns: out_cols };
        proof {
            assert(forall|j2: int|
                0 <= j2 < views(vals@).len() ==> #[trigger] views(vals@)[j2] == vals@[j2]@);
            assert forall|j2: int| 0 <= j2 < vals@.len() implies ({
                &&& (#[trigger] t.columns@[j2 + 1]).name@ == vals@[j2]@
                &&& t.columns@[j2 + 1].data matches ColumnData::Nums(sc)
                &&& all_present(sc@)
                &&& is_group_sums_col(
                    self.columns@[self.col_idx(vals@[j2]@)->0].data->Nums_0@,
                    kcells@,
                    gkeys,
                    sc@,
                )
            }) by {
                assert(out_cols@[j2 + 1] == t.columns@[j2 + 1]);
            }
            assert forall|k: int| 0 <= k < t.columns@.len() implies (#[trigger] t.columns@[k]).data.spec_len()
                == t.spec_height() by {
                if k > 0 {
                    assert(out_cols@[(k - 1) + 1] == t.columns@[k]);
                    assert((t.columns@[k].data matches ColumnData::Nums(sc)
                        && is_group_sums_col(
                        self.columns@[self.col_idx(vals@[k - 1]@)->0].data->Nums_0@,
                        kcells@,
                        gkeys,
                        sc@,
                    )));
                }
            }
            assert(self.group_by_sum_ok(key@, views(vals@)));
        }
        Ok(t)
    }
}

/// True when the machine indices `v` are exactly the mathematical indices
/// `idx`.
pub open spec fn is_idx_vec(v: Seq<usize>, idx: Seq<int>) -> bool {
    v.len() == idx.len() && forall|k: int| 0 <= k < v.len() ==> #[trigger] v[k] == idx[k]
}

/// The sum over a prefix one longer grows by the added row's cell.
pub proof fn lemma_idx_sum_step(cells: Seq<Option<Num>>, idx: Seq<int>, k: int)
    requires
        0 <= k < idx.len(),
    ensures
        idx_sum(cells, idx.take(k + 1)) == idx_sum(cells, idx.take(k)) + cell_mag(cells[idx[k]]),
{
    assert(idx.take(k + 1).drop_last() =~= idx.take(k));
    assert(idx.take(k + 1).last() == idx[k]);
}

/// The contribution of one cell to a group sum: missing cells count as
/// zero, as the aggregation ignores them.
pub open spec fn cell_mag(c: Option<Num>) -> int {
    match c {
        Some(Num::Finite(v)) => v as int,
        _ => 0,
    }
}

/// The exact sum of the cells at the rows `idx`.
pub open spec fn idx_sum(cells: Seq<Option<Num>>, idx: Seq<int>) -> int
    decreases idx.len(),
{
    if idx.len() == 0 {
        0
    } else {
        idx_sum(cells, idx.drop_last()) + cell_mag(cells[idx.last()])
    }
}

/// True when some cell at the rows `idx` is present but not finite.
pub open spec fn has_nonfinite(cells: Seq<Option<Num>>, idx: Seq<int>) -> bool {
    exists|k: int| 0 <= k < idx.len() && cells[#[trigger] idx[k]] == Some(Num::NotFinite)
}

/// What one group's sum is: not finite as soon as one summand is, else the
/// exact sum (missing cells counting as zero).
pub open spec fn is_group_sum(cells: Seq<Option<Num>>, idx: Seq<int>, out: Num) -> bool {
    if has_nonfinite(cells, idx) {
        out == Num::NotFinite
    } else {
        out matches Num::Finite(v) && v == idx_sum(cells, idx)
    }
}

/// True when every partial sum over the rows `idx`, taken in order, stays
/// in the machine's integer range.
pub open spec fn prefix_sums_ok(cells: Seq<Option<Num>>, idx: Seq<int>) -> bool {
    forall|p: int|
        0 <= p <= idx.len() ==> i64::MIN <= #[trigger] idx_sum(cells, idx.take(p)) <= i64::MAX
}

/// True when, for every group, a finite group sum can be computed without
/// leaving the machine's integer range.
pub open spec fn sums_ok_for(
    vc: Seq<Option<Num>>,
    kc: Seq<Option<String>>,
    keys: Seq<Seq<char>>,
) -> bool {
    forall|g: int|
        0 <= g < keys.len() ==> (!has_nonfinite(vc, #[trigger] match_indices(kc, keys[g]))
            ==> prefix_sums_ok(vc, match_indices(kc, keys[g])))
}

/// The value of one group's sum: not finite as soon as one summand is,
/// else the exact sum. Meaningful whenever a finite sum fits the machine
/// range, as [`is_group_sum`] guarantees.
pub open spec fn group_sum_val(cells: Seq<Option<Num>>, idx: Seq<int>) -> Num {
    if has_nonfinite(cells, idx) {
        Num::NotFinite
    } else {
        Num::Finite(idx_sum(cells, idx) as i64)
    }
}

/// True when `out` holds, per group key, exactly that group's sum.
pub open spec fn is_group_sums_col(
    vc: Seq<Option<Num>>,
    kc: Seq<Option<String>>,
    keys: Seq<Seq<char>>,
    out: Seq<Option<Num>>,
) -> bool {
    &&& out.len() == keys.len()
    &&& forall|g: int|
        0 <= g < keys.len() ==> ((#[trigger] out[g]) matches Some(s) && is_group_sum(
            vc,
            match_indices(kc, keys[g]),
            s,
        ))
}

/// The rows (ascending) whose cell is present and equals `cat`.
pub open spec fn match_indices(cells: Seq<Option<String>>, cat: Seq<char>) -> Seq<int>
    decreases cells.len(),
{
    if cells.len() == 0 {
        Seq::empty()
    } else {
        let prefix = match_indices(cells.drop_last(), cat);
        match cells.last() {
            Some(s) => if s@ == cat {
                prefix.push(cells.len() - 1)
            } else {
                prefix
            },
            None => prefix,
        }
    }
}

/// Every matching row index is a valid row.
pub proof fn lemma_match_indices_bounds(cells: Seq<Option<String>>, cat: Seq<char>)
    ensures
        forall|k: int|
            0 <= k < match_indices(cells, cat).len() ==> 0 <= #[trigger] match_indices(
                cells,
                cat,
            )[k] < cells.len(),
    decreases cells.len(),
{
    if cells.len() > 0 {
        lemma_match_indices_bounds(cells.drop_last(), cat);
        let prefix = match_indices(cells.drop_last(), cat);
        let full = match_indices(cells, cat);
        assert forall|k: int| 0 <= k < full.len() implies 0 <= #[trigger] full[k] < cells.len() by {
            if k < prefix.len() {
                assert(full[k] == prefix[k]);
            } else {
                assert(full[k] == cells.len() - 1);
            }
        }
    }
}

/// The matching rows of a prefix one longer grow by the added row when its
/// cell matches.
pub proof fn lemma_match_indices_step(cells: Seq<Option<String>>, cat: Seq<char>, i: int)
    requires
        0 <= i < cells.len(),
    ensures
        match_indices(cells.take(i + 1), cat) == (match cells[i] {
            Some(s) => if s@ == cat {
                match_indices(cells.take(i), cat).push(i)
            } else {
                match_indices(cells.take(i), cat)
            },
            None => match_indices(cells.take(i), cat),
        }),
{
    assert(cells.take(i + 1).drop_last() =~= cells.take(i));
    assert(cells.take(i + 1).last() == cells[i]);
    assert(cells.take(i + 1).len() - 1 == i);
}

/// True when `out` holds, in order, the cells of `orig` at the rows `idx`,
/// with the element type kept.
pub open spec fn is_selection(orig: ColumnData, idx: Seq<int>, out: ColumnData) -> bool {
    match (orig, out) {
        (ColumnData::Strs(a), ColumnData::Strs(b)) => b@ == Seq::new(
            idx.len(),
            |k: int| a@[idx[k]],
        ),
        (ColumnData::Nums(a), ColumnData::Nums(b)) => b@ == Seq::new(
            idx.len(),
            |k: int| a@[idx[k]],
        ),
        _ => false,
    }
}

/// True when two columns hold equal cells under equal names.
pub open spec fn data_equiv(a: ColumnData, b: ColumnData) -> bool {
    match (a, b) {
        (ColumnData::Strs(x), ColumnData::Strs(y)) => x@ == y@,
        (ColumnData::Nums(x), ColumnData::Nums(y)) => x@ == y@,
        _ => false,
    }
}

/// True when the two tables hold the same columns with the same cells.
pub open spec fn tables_equiv(a: Table, b: Table) -> bool {
    &&& b.columns@.len() == a.columns@.len()
    &&& forall|k: int|
        0 <= k < a.columns@.len() ==> (#[trigger] b.columns@[k]).name == a.columns@[k].name
            && data_equiv(a.columns@[k].data, b.columns@[k].data)
}

/// Clones one column's cells.
pub fn clone_data(d: &ColumnData) -> (r: ColumnData)
    ensures
        data_equiv(*d, r),
{
    match d {
        ColumnData::Strs(cells) => {
            let n = cells.len();
            let mut out: Vec<Option<String>> = Vec::new();
            let mut i: usize = 0;
            while i < n
                invariant
                    n == cells@.len(),
                    0 <= i <= n,
                    out@.len() == i,
                    forall|k: int| 0 <= k < i ==> #[trigger] out@[k] == cells@[k],
                decreases n - i,
            {
                out.push(crate::table::clone_opt_string(&cells[i]));
                i += 1;
            }
            proof {
                assert(out@ =~= cells@);
            }
            ColumnData::Strs(out)
        },
        ColumnData::Nums(cells) => {
            let n = cells.len();
            let mut out: Vec<Option<Num>> = Vec::new();
            let mut i: usize = 0;
            while i < n
                invariant
                    n == cells@.len(),
                    0 <= i <= n,
                    out@.len() == i,
                    forall|k: int| 0 <= k < i ==> #[trigger] out@[k] == cells@[k],
                decreases n - i,
            {
                out.push(cells[i]);
                i += 1;
            }
            proof {
                assert(out@ =~= cells@);
            }
            ColumnData::Nums(out)
        },
    }
}

/// Clones a table.
pub fn clone_table(t: &Table) -> (r: Table)
    ensures
        tables_equiv(*t, r),
        r.spec_height() == t.spec_height(),
        t.wf() ==> r.wf(),
{
    let n = t.columns.len();
    let mut cols: Vec<Column> = Vec::new();
    let mut i: usize = 0;
    while i < n
        invariant
            n == t.columns@.len(),
            0 <= i <= n,
            cols@.len() == i,
            forall|k: int|
                0 <= k < i ==> (#[trigger] cols@[k]).name == t.columns@[k].name && data_equiv(
                    t.columns@[k].data,
                    cols@[k].data,
                ),
        decreases n - i,
    {
        let c = &t.columns[i];
        cols.push(Column { name: c.name.clone(), data: clone_data(&c.data) });
        i += 1;
    }
    let r = Table { columns: cols };
    proof {
        assert forall|k: int|
            0 <= k < r.columns@.len() implies (#[trigger] r.columns@[k]).data.spec_len()
            == t.columns@[k].data.spec_len() by {
            assert(data_equiv(t.columns@[k].data, r.columns@[k].data));
        }
        if r.columns@.len() > 0 {
            assert(r.columns@[0].data.spec_len() == t.columns@[0].data.spec_len());
        }
    }
    r
}


/// Clones one possibly-missing string cell.
pub fn clone_opt_string(cell: &Option<String>) -> (r: Option<String>)
    ensures
        r == *cell,
{
    match cell {
        Some(s) => Some(s.clone()),
        None => None,
    }
}

/// The rows (ascending) whose cell is present and equals `cat`, as machine
/// indices.
#[verifier::loop_isolation(false)]
pub fn match_indices_exec(cells: &Vec<Option<String>>, cat: &str) -> (r: Vec<usize>)
    ensures
        r@.len() == match_indices(cells@, cat@).len(),
        forall|k: int| 0 <= k < r@.len() ==> #[trigger] r@[k] == match_indices(cells@, cat@)[k],
{
    let n = cells.len();
    let mut out: Vec<usize> = Vec::new();
    let mut i: usize = 0;
    while i < n
        invariant
            0 <= i <= n,
            out@.len() == match_indices(cells@.take(i as int), cat@).len(),
            forall|k: int|
                0 <= k < out@.len() ==> #[trigger] out@[k] == match_indices(
                    cells@.take(i as int),
                    cat@,
                )[k],
        decreases n - i,
    {
        proof {
            lemma_match_indices_step(cells@, cat@, i as int);
        }
        match &cells[i] {
            Some(s) => {
                if crate::text::str_eq(s.as_str(), cat) {
                    out.push(i);
                }
            },
            None => {},
        }
        i += 1;
    }
    proof {
        assert(cells@.take(n as int) =~= cells@);
    }
    out
}

} // verus!
