//! The bar chart: one bar trace per requested y-column, optionally once
//! per group combination. The `proportion` bar-mode first groups the table
//! by the x-column, sums each y-column per category, fits one proportion
//! scaler per category, and then renders each value as its exact fraction
//! of its category's total, stacked.

use vstd::prelude::*;

use crate::df::{all_present, cell_views, cont_str_values, distinct_stable, views};
use crate::group::{
    cats_of, group_col_err, group_col_ok, groups_built, lemma_names_col_idx,
    lemma_partition_shape, parts_match, same_shape, Groups, SelectedGroupCategoryPair,
};
use crate::numeral::scatter::opt_names;
use crate::text::{grouped_name, grouped_name_exec};
use crate::error::Error;
use crate::num::Num;
use crate::num::Frac;
use crate::scale::{find_in, fit_result, transform_result, ProportionScalingEstimator, ScalerMap};
use crate::table::{group_sum_val, match_indices, Column, ColumnData, Table};
use crate::trace::{BarMode, PlotModel, Trace};

verus! {

/// What a bar-mode keyword selects: the bar arrangement, and whether the
/// proportion normalization is requested.
pub open spec fn barmode_of(s: Seq<char>) -> Option<(BarMode, bool)> {
    if s == "group"@ {
        Some((BarMode::Group, false))
    } else if s == "overlay"@ {
        Some((BarMode::Overlay, false))
    } else if s == "relative"@ {
        Some((BarMode::Relative, false))
    } else if s == "stack"@ {
        Some((BarMode::Stack, false))
    } else if s == "proportion"@ {
        Some((BarMode::Stack, true))
    } else {
        None
    }
}

/// Parses the bar-mode keyword; fails exactly on an unknown keyword,
/// naming it.
pub fn parse_barmode(s: &str) -> (r: Result<(BarMode, bool), Error>)
    ensures
        match r {
            Ok(bm) => barmode_of(s@) == Some(bm),
            Err(e) => barmode_of(s@) is None && (e matches Error::UnknownBarMode(w) && w@ == s@),
        },
{
    if crate::text::str_eq(s, "group") {
        Ok((BarMode::Group, false))
    } else if crate::text::str_eq(s, "overlay") {
        Ok((BarMode::Overlay, false))
    } else if crate::text::str_eq(s, "relative") {
        Ok((BarMode::Relative, false))
    } else if crate::text::str_eq(s, "stack") {
        Ok((BarMode::Stack, false))
    } else if crate::text::str_eq(s, "proportion") {
        Ok((BarMode::Stack, true))
    } else {
        Err(Error::UnknownBarMode(s.to_owned()))
    }
}

/// One category's observations: for each y-column in order, that column's
/// sum over the category's rows.
pub open spec fn obs_seq(df: Table, xname: Seq<char>, y: Seq<String>, g: int) -> Seq<Num> {
    Seq::new(
        y.len(),
        |j: int|
            group_sum_val(
                df.columns@[df.col_idx(y[j]@)->0].data->Nums_0@,
                match_indices(
                    df.columns@[df.col_idx(xname)->0].data->Strs_0@,
                    distinct_stable(
                        cell_views(df.columns@[df.col_idx(xname)->0].data->Strs_0@),
                    )[g],
                ),
            ),
    )
}

/// The distinct x-categories the scalers are fitted for.
pub open spec fn scaler_keys(df: Table, xname: Seq<char>) -> Seq<Seq<char>> {
    distinct_stable(cell_views(df.columns@[df.col_idx(xname)->0].data->Strs_0@))
}

/// True when `m` holds, for every distinct x-category in first-occurrence
/// order, a scaler fitted from that category's per-series sums.
pub open spec fn scalers_built(df: Table, xname: Seq<char>, y: Seq<String>, m: ScalerMap) -> bool {
    &&& df.group_by_sum_ok(xname, views(y))
    &&& m.wf()
    &&& m.entries_view().len() == scaler_keys(df, xname).len()
    &&& forall|g: int|
        0 <= g < scaler_keys(df, xname).len() ==> ({
            &&& (#[trigger] m.entries_view()[g]).0 == scaler_keys(df, xname)[g]
            &&& fit_result(obs_seq(df, xname, y, g)) == Ok::<int, Error>(
                m.entries_view()[g].1.fitted_total(),
            )
        })
}

/// The error of a failed scaler fit: for some category, in order, fitting
/// its per-series sums failed, every earlier category having fitted.
pub open spec fn scalers_err(df: Table, xname: Seq<char>, y: Seq<String>, e: Error) -> bool {
    exists|g: int|
        0 <= g < scaler_keys(df, xname).len() && fit_result(#[trigger] obs_seq(df, xname, y, g))
            == Err::<int, Error>(e) && forall|m: int|
            0 <= m < g ==> fit_result(obs_seq(df, xname, y, m)) is Ok
}

/// Groups the table by the x-column, sums each y-column per category, and
/// fits one proportion scaler per category, keyed by the category label.
#[verifier::loop_isolation(false)]
pub fn build_scalers(df: &Table, x: &str, y: &Vec<String>) -> (r: Result<ScalerMap, Error>)
    requires
        df.wf(),
    ensures
        match r {
            Ok(m) => scalers_built(*df, x@, y@, m),
            Err(e) => (!df.group_by_sum_ok(x@, views(y@)) && df.group_by_sum_err(
                x@,
                views(y@),
                e,
            )) || scalers_err(*df, x@, y@, e),
        },
{
    let grouped = match df.group_by_sum(x, y) {
        Ok(t) => t,
        Err(e) => {
            return Err(e);
        },
    };
    let x_names = match cont_str_values(&grouped.columns[0]) {
        Ok(v) => v,
        Err(_) => {
            proof {
                assert(false);
            }
            // Never reached: the proof above closes this arm.
            return Err(Error::Overflow);
        },
    };
    let ghost keys = scaler_keys(*df, x@);
    proof {
        assert(views(x_names@) =~= keys);
    }
    let est = ProportionScalingEstimator;
    let mut m = ScalerMap::new();
    let gn = x_names.len();
    let yn = y.len();
    let mut g: usize = 0;
    while g < gn
        invariant
            gn == keys.len(),
            gn == x_names@.len(),
            yn == y@.len(),
            forall|g2: int| 0 <= g2 < gn ==> #[trigger] x_names@[g2]@ == keys[g2],
            0 <= g <= gn,
            m.wf(),
            m.entries_view().len() == g,
            forall|g2: int|
                0 <= g2 < g ==> ({
                    &&& (#[trigger] m.entries_view()[g2]).0 == keys[g2]
                    &&& fit_result(obs_seq(*df, x@, y@, g2)) == Ok::<int, Error>(
                        m.entries_view()[g2].1.fitted_total(),
                    )
                }),
        decreases gn - g,
    {
        let mut obs: Vec<Num> = Vec::new();
        let mut j: usize = 0;
        while j < yn
            invariant
                0 <= j <= yn,
                0 <= g < gn,
                obs@.len() == j,
                forall|j2: int| 0 <= j2 < j ==> #[trigger] obs@[j2] == obs_seq(*df, x@, y@, g as int)[j2],
            decreases yn - j,
        {
            let cell = match &grouped.columns[j + 1].data {
                ColumnData::Nums(cells) => cells[g],
                ColumnData::Strs(_) => {
                    proof {
                        assert(false);
                    }
                    // Never reached: the proof above closes this arm.
                    return Err(Error::Overflow);
                },
            };
            match cell {
                Some(v) => {
                    obs.push(v);
                    proof {
                        let jv = j as int;
                        let gv = g as int;
                        assert(grouped.columns@[jv + 1].data matches ColumnData::Nums(sc)
                            && crate::table::is_group_sums_col(
                            df.columns@[df.col_idx(y@[jv]@)->0].data->Nums_0@,
                            df.columns@[df.col_idx(x@)->0].data->Strs_0@,
                            keys,
                            sc@,
                        ));
                        assert(obs@[jv] == obs_seq(*df, x@, y@, gv)[jv]);
                    }
                },
                None => {
                    proof {
                        assert(false);
                    }
                    // Never reached: the proof above closes this arm.
                    return Err(Error::Overflow);
                },
            }
            j += 1;
        }
        proof {
            assert(obs@ =~= obs_seq(*df, x@, y@, g as int));
        }
        let sc = match est.fit(&obs) {
            Ok(sc) => sc,
            Err(e) => {
                proof {
                    assert(fit_result(obs_seq(*df, x@, y@, g as int)) == Err::<int, Error>(e));
                    assert forall|g3: int| 0 <= g3 < g implies fit_result(
                        obs_seq(*df, x@, y@, g3),
                    ) is Ok by {
                        assert((#[trigger] m.entries_view()[g3]).0 == keys[g3]);
                    }
                    assert(scalers_err(*df, x@, y@, e));
                }
                return Err(e);
            },
        };
        m.insert(x_names[g].clone(), sc);
        g += 1;
    }
    proof {
        assert(scalers_built(*df, x@, y@, m));
    }
    Ok(m)
}

/// True when `labels` are the bar labels of `t`: the x-column's strings
/// when that column exists, else the one-based row numbers in decimal.
pub open spec fn bar_labels_ok(t: Table, xname: Seq<char>, labels: Seq<String>) -> bool {
    match t.col_idx(xname) {
        Some(ci) => t.columns@[ci].data matches ColumnData::Strs(cells) && all_present(cells@)
            && labels.len() == cells@.len() && forall|r: int|
            0 <= r < labels.len() ==> (#[trigger] labels[r])@ == cells@[r]->0@,
        None => labels.len() == t.spec_height() && forall|r: int|
            0 <= r < labels.len() ==> (#[trigger] labels[r])@ == crate::text::dec_chars(r + 1),
    }
}

/// The bar label of row `r` of `t`.
pub open spec fn label_at(t: Table, xname: Seq<char>, r: int) -> Seq<char> {
    match t.col_idx(xname) {
        Some(ci) => t.columns@[ci].data->Strs_0@[r]->0@,
        None => crate::text::dec_chars(r + 1),
    }
}

/// True when the x-column can label bars: absent (row numbers label
/// instead), or a fully-populated string column.
pub open spec fn bar_x_ok(t: Table, xname: Seq<char>) -> bool {
    match t.col_idx(xname) {
        Some(ci) => t.columns@[ci].data matches ColumnData::Strs(cells) && all_present(cells@),
        None => true,
    }
}

/// True when the y-column holds a value for every row.
pub open spec fn bar_y_ok(t: Table, yname: Seq<char>) -> bool {
    t.col_idx(yname) matches Some(cj) && t.columns@[cj].data matches ColumnData::Nums(cells)
        && all_present(cells@)
}

/// True when one row's proportion is the exact fraction the scaler for
/// its label assigns to its value.
pub open spec fn row_frac_ok(m: ScalerMap, label: Seq<char>, v: Num, f: Frac) -> bool {
    &&& m.find(label) matches Some(sc)
    &&& transform_result(m.find(label)->0.fitted_total(), v) == Ok::<(int, int), Error>(
        (f.num as int, f.den as int),
    )
    &&& f.wf()
}

/// True when one row can be scaled: its value is a valid observation and
/// its label has a fitted scaler.
pub open spec fn row_ok(m: ScalerMap, label: Seq<char>, v: Num) -> bool {
    v.is_valid_observation() && m.find(label) is Some
}

/// The error of one unscalable row: a negative or non-finite value, or,
/// for a valid value, a label absent from the fitted mapping.
pub open spec fn row_err(m: ScalerMap, label: Seq<char>, v: Num, e: Error) -> bool {
    if !v.is_valid_observation() {
        match v {
            Num::NotFinite => e == Error::NonFiniteObservation,
            Num::Finite(_) => e == Error::NegativeObservation,
        }
    } else {
        m.find(label) is None && (e matches Error::CategoryNotFound(s) && s@ == label)
    }
}

/// True when `tr` is the bar trace named `tname` for the y-column `yname`
/// of `t`: labelled by the x-column or row numbers, carrying the raw
/// values, or, under a scaler mapping, each value's exact fraction of its
/// category's total.
pub open spec fn is_bar_trace(
    t: Table,
    xname: Seq<char>,
    yname: Seq<char>,
    tname: Seq<char>,
    m: Option<ScalerMap>,
    tr: Trace,
) -> bool {
    &&& t.col_idx(yname) matches Some(cj)
    &&& t.columns@[cj].data matches ColumnData::Nums(yc)
    &&& all_present(yc@)
    &&& (match m {
        None => tr matches Trace::Bar { name, x, y } && ({
            &&& name@ == tname
            &&& bar_labels_ok(t, xname, x@)
            &&& y@.len() == yc@.len()
            &&& forall|r: int| 0 <= r < y@.len() ==> #[trigger] y@[r] == yc@[r]->0
        }),
        Some(mm) => tr matches Trace::ProportionBar { name, x, y } && ({
            &&& name@ == tname
            &&& bar_labels_ok(t, xname, x@)
            &&& y@.len() == yc@.len()
            &&& forall|r: int|
                0 <= r < y@.len() ==> row_frac_ok(
                    mm,
                    label_at(t, xname, r),
                    yc@[r]->0,
                    #[trigger] y@[r],
                )
        }),
    })
}

/// The error of a failed bar trace for one y-column: the column is
/// absent; or the x-column cannot label (a missing cell, or a numeric
/// column); or the y-column has a string or missing value; or, scaling,
/// some row cannot be scaled, every earlier row scaling.
pub open spec fn bar_trace_err(
    t: Table,
    xname: Seq<char>,
    yname: Seq<char>,
    m: Option<ScalerMap>,
    e: Error,
) -> bool {
    match t.col_idx(yname) {
        None => e matches Error::ColumnNotFound(s) && s@ == yname,
        Some(cj) => if !bar_x_ok(t, xname) {
            match t.col_idx(xname) {
                Some(ci) => match t.columns@[ci].data {
                    ColumnData::Strs(cells) => !all_present(cells@) && (e
                        matches Error::MissingValue(s) && s@ == t.columns@[ci].name@),
                    ColumnData::Nums(_) => e matches Error::NotStringColumn(s) && s@
                        == t.columns@[ci].name@,
                },
                None => false,
            }
        } else if !(t.columns@[cj].data matches ColumnData::Nums(yc) && all_present(yc@)) {
            match t.columns@[cj].data {
                ColumnData::Strs(_) => e matches Error::NotNumericColumn(s) && s@
                    == t.columns@[cj].name@,
                ColumnData::Nums(yc) => !all_present(yc@) && (e matches Error::MissingValue(s)
                    && s@ == t.columns@[cj].name@),
            }
        } else {
            m matches Some(mm) && exists|r: int|
                0 <= r < t.columns@[cj].data->Nums_0@.len() && #[trigger] row_err(
                    mm,
                    label_at(t, xname, r),
                    t.columns@[cj].data->Nums_0@[r]->0,
                    e,
                ) && forall|r2: int|
                    0 <= r2 < r ==> row_ok(
                        mm,
                        label_at(t, xname, r2),
                        t.columns@[cj].data->Nums_0@[r2]->0,
                    )
        },
    }
}

/// The one-based row numbers, in decimal, as bar labels.
fn row_labels(n: usize) -> (r: Vec<String>)
    ensures
        r@.len() == n,
        forall|i: int| 0 <= i < n ==> (#[trigger] r@[i])@ == crate::text::dec_chars(i + 1),
{
    let mut out: Vec<String> = Vec::new();
    let mut i: usize = 0;
    while i < n
        invariant
            0 <= i <= n,
            out@.len() == i,
            forall|k: int| 0 <= k < i ==> (#[trigger] out@[k])@ == crate::text::dec_chars(k + 1),
        decreases n - i,
    {
        out.push(crate::text::usize_to_string(i + 1));
        i += 1;
    }
    out
}

/// Builds one bar trace from the columns of one partition, scaling each
/// value to its category proportion when a scaler mapping is given.
#[verifier::loop_isolation(false)]
fn trace(x: Option<&Column>, ycol: &Column, name: String, scalers: Option<&ScalerMap>, t: &Table)
    -> (r: Result<Trace, Error>)
    requires
        t.wf(),
        (match scalers {
            Some(m) => m.wf(),
            None => true,
        }),
        (match x {
            Some(xc) => t.col_idx(xc.name@) is Some && *xc == t.columns@[t.col_idx(xc.name@)->0],
            None => true,
        }),
        ycol.data is Nums ==> ycol.data->Nums_0@.len() == t.spec_height(),
    ensures
        match r {
            Ok(tr) => {
                &&& ycol.data matches ColumnData::Nums(yc)
                &&& all_present(yc@)
                &&& (match scalers {
                    None => tr matches Trace::Bar { name: nm, x: labels, y: yv } && ({
                        &&& nm@ == name@
                        &&& labels@.len() == yc@.len()
                        &&& (match x {
                            Some(xc) => xc.data matches ColumnData::Strs(cells)
                                && all_present(cells@) && forall|r2: int|
                                0 <= r2 < labels@.len() ==> (#[trigger] labels@[r2])@
                                == cells@[r2]->0@,
                            None => forall|r2: int|
                                0 <= r2 < labels@.len() ==> (#[trigger] labels@[r2])@
                                == crate::text::dec_chars(r2 + 1),
                        })
                        &&& yv@.len() == yc@.len()
                        &&& forall|r2: int| 0 <= r2 < yv@.len() ==> #[trigger] yv@[r2]
                            == yc@[r2]->0
                    }),
                    Some(mm) => tr matches Trace::ProportionBar { name: nm, x: labels, y: yv }
                        && ({
                        &&& nm@ == name@
                        &&& labels@.len() == yc@.len()
                        &&& (match x {
                            Some(xc) => xc.data matches ColumnData::Strs(cells)
                                && all_present(cells@) && forall|r2: int|
                                0 <= r2 < labels@.len() ==> (#[trigger] labels@[r2])@
                                == cells@[r2]->0@,
                            None => forall|r2: int|
                                0 <= r2 < labels@.len() ==> (#[trigger] labels@[r2])@
                                == crate::text::dec_chars(r2 + 1),
                        })
                        &&& yv@.len() == yc@.len()
                        &&& forall|r2: int|
                            0 <= r2 < yv@.len() ==> row_frac_ok(
                                *mm,
                                labels@[r2]@,
                                yc@[r2]->0,
                                #[trigger] yv@[r2],
                            )
                    }),
                })
            },
            Err(e) => match x {
                Some(xc) => if !(xc.data matches ColumnData::Strs(cells) && all_present(
                    cells@,
                )) {
                    match xc.data {
                        ColumnData::Strs(cells) => !all_present(cells@) && (e
                            matches Error::MissingValue(s) && s@ == xc.name@),
                        ColumnData::Nums(_) => e matches Error::NotStringColumn(s) && s@
                            == xc.name@,
                    }
                } else {
                    ||| bar_y_err(*ycol, e)
                    ||| (scalers matches Some(mm2) && bar_rows_err(*ycol, *mm2, xc.data->Strs_0@, e))
                },
                None => {
                    ||| bar_y_err(*ycol, e)
                    ||| (scalers matches Some(mm2) && bar_rows_err_nums(*ycol, *mm2, e))
                },
            },
        },
{
    let labels: Vec<String> = match x {
        Some(xc) => {
            match cont_str_values(xc) {
                Ok(v) => v,
                Err(e) => {
                    return Err(e);
                },
            }
        },
        None => row_labels(ycol.data.len()),
    };
    let ys: Vec<Num> = match crate::df::cont_num_values(ycol) {
        Ok(v) => v,
        Err(e) => {
            return Err(e);
        },
    };
    proof {
        if let Some(xc) = x {
            assert(labels@.len() == ys@.len()) by {
                crate::table::lemma_col_idx_from(t.columns@, xc.name@);
                assert(t.columns@[t.col_idx(xc.name@)->0].data.spec_len() == t.spec_height());
            }
        }
    }
    match scalers {
        None => Ok(Trace::Bar { name, x: labels, y: ys }),
        Some(mm) => {
            let n = ys.len();
            let mut fracs: Vec<Frac> = Vec::new();
            let mut r: usize = 0;
            while r < n
                invariant
                    n == ys@.len(),
                    labels@.len() == n,
                    0 <= r <= n,
                    fracs@.len() == r,
                    mm.wf(),
                    forall|r2: int|
                        0 <= r2 < r ==> row_frac_ok(
                            *mm,
                            labels@[r2]@,
                            ys@[r2],
                            #[trigger] fracs@[r2],
                        ),
                    forall|r2: int| 0 <= r2 < r ==> row_ok(*mm, labels@[r2]@, ys@[r2]),
                decreases n - r,
            {
                match ys[r] {
                    Num::NotFinite => {
                        proof {
                            let rr = r as int;
                            match x {
                                Some(xc) => {
                                    assert(row_err(
                                        *mm,
                                        xc.data->Strs_0@[rr]->0@,
                                        ycol.data->Nums_0@[rr]->0,
                                        Error::NonFiniteObservation,
                                    ));
                                    assert forall|r2: int| 0 <= r2 < rr implies row_ok(
                                        *mm,
                                        xc.data->Strs_0@[r2]->0@,
                                        ycol.data->Nums_0@[r2]->0,
                                    ) by {
                                        assert(row_ok(*mm, labels@[r2]@, ys@[r2]));
                                    }
                                    assert(exists|r3: int|
                                        0 <= r3 < ycol.data->Nums_0@.len() && #[trigger] row_err(
                                            *mm,
                                            xc.data->Strs_0@[r3]->0@,
                                            ycol.data->Nums_0@[r3]->0,
                                            Error::NonFiniteObservation,
                                        ) && forall|r2: int|
                                            0 <= r2 < r3 ==> row_ok(
                                                *mm,
                                                xc.data->Strs_0@[r2]->0@,
                                                ycol.data->Nums_0@[r2]->0,
                                            ));
                                    assert(bar_rows_err(
                                        *ycol,
                                        *mm,
                                        xc.data->Strs_0@,
                                        Error::NonFiniteObservation,
                                    ));
                                },
                                None => {
                                    assert(row_err(
                                        *mm,
                                        crate::text::dec_chars(rr + 1),
                                        ycol.data->Nums_0@[rr]->0,
                                        Error::NonFiniteObservation,
                                    ));
                                    assert forall|r2: int| 0 <= r2 < rr implies row_ok(
                                        *mm,
                                        crate::text::dec_chars(r2 + 1),
                                        ycol.data->Nums_0@[r2]->0,
                                    ) by {
                                        assert(row_ok(*mm, labels@[r2]@, ys@[r2]));
                                    }
                                    assert(bar_rows_err_nums(
                                        *ycol,
                                        *mm,
                                        Error::NonFiniteObservation,
                                    ));
                                },
                            }
                        }
                        return Err(Error::NonFiniteObservation);
                    },
                    Num::Finite(v) => {
                        if v < 0 {
                            proof {
                                let rr = r as int;
                                match x {
                                    Some(xc) => {
                                        assert(row_err(
                                            *mm,
                                            xc.data->Strs_0@[rr]->0@,
                                            ycol.data->Nums_0@[rr]->0,
                                            Error::NegativeObservation,
                                        ));
                                        assert forall|r2: int| 0 <= r2 < rr implies row_ok(
                                            *mm,
                                            xc.data->Strs_0@[r2]->0@,
                                            ycol.data->Nums_0@[r2]->0,
                                        ) by {
                                            assert(row_ok(*mm, labels@[r2]@, ys@[r2]));
                                        }
                                        assert(exists|r3: int|
                                            0 <= r3 < ycol.data->Nums_0@.len() && #[trigger] row_err(
                                                *mm,
                                                xc.data->Strs_0@[r3]->0@,
                                                ycol.data->Nums_0@[r3]->0,
                                                Error::NegativeObservation,
                                            ) && forall|r2: int|
                                                0 <= r2 < r3 ==> row_ok(
                                                    *mm,
                                                    xc.data->Strs_0@[r2]->0@,
                                                    ycol.data->Nums_0@[r2]->0,
                                                ));
                                        assert(bar_rows_err(
                                            *ycol,
                                            *mm,
                                            xc.data->Strs_0@,
                                            Error::NegativeObservation,
                                        ));
                                    },
                                    None => {
                                        assert(row_err(
                                            *mm,
                                            crate::text::dec_chars(rr + 1),
                                            ycol.data->Nums_0@[rr]->0,
                                            Error::NegativeObservation,
                                        ));
                                        assert forall|r2: int| 0 <= r2 < rr implies row_ok(
                                            *mm,
                                            crate::text::dec_chars(r2 + 1),
                                            ycol.data->Nums_0@[r2]->0,
                                        ) by {
                                            assert(row_ok(*mm, labels@[r2]@, ys@[r2]));
                                        }
                                        assert(bar_rows_err_nums(
                                            *ycol,
                                            *mm,
                                            Error::NegativeObservation,
                                        ));
                                    },
                                }
                            }
                            return Err(Error::NegativeObservation);
                        }
                    },
                }
                let sc = match mm.get(labels[r].as_str()) {
                    Some(sc) => sc,
                    None => {
                        let e2 = Error::CategoryNotFound(labels[r].clone());
                        proof {
                            let rr = r as int;
                            match x {
                                Some(xc) => {
                                    assert(row_err(
                                        *mm,
                                        xc.data->Strs_0@[rr]->0@,
                                        ycol.data->Nums_0@[rr]->0,
                                        e2,
                                    ));
                                    assert forall|r2: int| 0 <= r2 < rr implies row_ok(
                                        *mm,
                                        xc.data->Strs_0@[r2]->0@,
                                        ycol.data->Nums_0@[r2]->0,
                                    ) by {
                                        assert(row_ok(*mm, labels@[r2]@, ys@[r2]));
                                    }
                                    assert(exists|r3: int|
                                        0 <= r3 < ycol.data->Nums_0@.len() && #[trigger] row_err(
                                            *mm,
                                            xc.data->Strs_0@[r3]->0@,
                                            ycol.data->Nums_0@[r3]->0,
                                            e2,
                                        ) && forall|r2: int|
                                            0 <= r2 < r3 ==> row_ok(
                                                *mm,
                                                xc.data->Strs_0@[r2]->0@,
                                                ycol.data->Nums_0@[r2]->0,
                                            ));
                                    assert(bar_rows_err(
                                        *ycol,
                                        *mm,
                                        xc.data->Strs_0@,
                                        e2,
                                    ));
                                },
                                None => {
                                    assert(row_err(
                                        *mm,
                                        crate::text::dec_chars(rr + 1),
                                        ycol.data->Nums_0@[rr]->0,
                                        e2,
                                    ));
                                    assert forall|r2: int| 0 <= r2 < rr implies row_ok(
                                        *mm,
                                        crate::text::dec_chars(r2 + 1),
                                        ycol.data->Nums_0@[r2]->0,
                                    ) by {
                                        assert(row_ok(*mm, labels@[r2]@, ys@[r2]));
                                    }
                                    assert(bar_rows_err_nums(
                                        *ycol,
                                        *mm,
                                        e2,
                                    ));
                                },
                            }
                        }
                        return Err(e2);
                    },
                };
                proof {
                    crate::scale::lemma_find_in(mm.entries_view(), labels@[r as int]@);
                    let k = choose|k: int|
                        0 <= k < mm.entries_view().len() && (#[trigger] mm.entries_view()[k]).0
                            == labels@[r as int]@ && find_in(
                            mm.entries_view(),
                            labels@[r as int]@,
                        ) == Some(mm.entries_view()[k].1) && forall|j2: int|
                            0 <= j2 < k ==> (#[trigger] mm.entries_view()[j2]).0
                                != labels@[r as int]@;
                    assert(mm.entries_view()[k].1.wf());
                }
                let f = match sc.transform(ys[r]) {
                    Ok(f) => f,
                    Err(_) => {
                        proof {
                            assert(false);
                        }
                        // Never reached: the proof above closes this arm.
                        return Err(Error::Overflow);
                    },
                };
                fracs.push(f);
                r += 1;
            }
            Ok(Trace::ProportionBar { name, x: labels, y: fracs })
        },
    }
}

/// The scaler mapping handed to a trace, as a spec value.
pub open spec fn scalers_view(scalers: Option<&ScalerMap>) -> Option<ScalerMap> {
    match scalers {
        Some(m) => Some(*m),
        None => None,
    }
}

/// The error of a bad y-column: strings where numbers are needed, or a
/// missing value.
pub open spec fn bar_y_err(ycol: Column, e: Error) -> bool {
    match ycol.data {
        ColumnData::Strs(_) => e matches Error::NotNumericColumn(s) && s@ == ycol.name@,
        ColumnData::Nums(yc) => !all_present(yc@) && (e matches Error::MissingValue(s) && s@
            == ycol.name@),
    }
}

/// The error of an unscalable row, against labels from the x-column: the
/// first row, in order, whose value is invalid or whose label has no
/// fitted scaler.
pub open spec fn bar_rows_err(
    ycol: Column,
    mm: ScalerMap,
    xcells: Seq<Option<String>>,
    e: Error,
) -> bool {
    &&& ycol.data matches ColumnData::Nums(yc) && all_present(yc@)
    &&& exists|r: int|
        0 <= r < ycol.data->Nums_0@.len() && #[trigger] row_err(
            mm,
            xcells[r]->0@,
            ycol.data->Nums_0@[r]->0,
            e,
        ) && forall|r2: int|
            0 <= r2 < r ==> row_ok(mm, xcells[r2]->0@, ycol.data->Nums_0@[r2]->0)
}

/// True when the chart's layout is as requested: the x-column titles the
/// x-axis, a single y-column titles the y-axis, and the bar arrangement
/// is the parsed bar-mode's.
pub open spec fn bar_layout_ok(
    xname: Seq<char>,
    y: Seq<String>,
    bm: Seq<char>,
    pm: PlotModel,
) -> bool {
    &&& pm.x_title matches Some(t) && t@ == xname
    &&& (if y.len() == 1 {
        pm.y_title matches Some(t2) && t2@ == y[0]@
    } else {
        pm.y_title is None
    })
    &&& barmode_of(bm) is Some
    &&& pm.bar_mode == Some((barmode_of(bm)->0).0)
}

/// True when `pm` holds, for every partition in order and every y-column
/// in order within it, the grouped bar trace of that partition.
pub open spec fn grouped_bar_witness(
    df: Table,
    xname: Seq<char>,
    y: Seq<String>,
    gn: Seq<String>,
    m: Option<ScalerMap>,
    pm: PlotModel,
    gs: Groups,
    parts: Seq<(Table, Vec<SelectedGroupCategoryPair>)>,
) -> bool {
    &&& groups_built(df, gn, gs)
    &&& parts_match(df, gs.groups@, parts)
    &&& pm.traces@.len() == parts.len() * y.len()
    &&& forall|p: int, j: int|
        0 <= p < parts.len() && 0 <= j < y.len() ==> is_bar_trace(
            parts[p].0,
            xname,
            y[j]@,
            grouped_name(cats_of(parts[p].1@), y[j]@),
            m,
            #[trigger] pm.traces@[p * y.len() + j],
        )
}

/// True when the chart's traces are as requested, against the given
/// scaler mapping (or none): without grouping one trace per y-column, in
/// order; with grouping, one per combination and y-column, partitions
/// outermost, in combination order.
pub open spec fn bar_traces_with(
    df: Table,
    xname: Seq<char>,
    y: Seq<String>,
    groups: Option<Seq<String>>,
    m: Option<ScalerMap>,
    pm: PlotModel,
) -> bool {
    match groups {
        None => pm.traces@.len() == y.len() && forall|j: int|
            0 <= j < y.len() ==> is_bar_trace(
                df,
                xname,
                y[j]@,
                y[j]@,
                m,
                #[trigger] pm.traces@[j],
            ),
        Some(gn) => exists|gs: Groups, parts: Seq<(Table, Vec<SelectedGroupCategoryPair>)>|
            #[trigger] grouped_bar_witness(df, xname, y, gn, m, pm, gs, parts),
    }
}

/// True when the chart's traces are as requested: raw bars, or, under the
/// proportion bar-mode, proportion bars against the fitted scalers.
pub open spec fn bar_traces_ok(
    df: Table,
    xname: Seq<char>,
    y: Seq<String>,
    groups: Option<Seq<String>>,
    prop: bool,
    pm: PlotModel,
) -> bool {
    if prop {
        exists|m: ScalerMap|
            #[trigger] scalers_built(df, xname, y, m) && bar_traces_with(
                df,
                xname,
                y,
                groups,
                Some(m),
                pm,
            )
    } else {
        bar_traces_with(df, xname, y, groups, None, pm)
    }
}

/// True when `pm` is the assembled bar chart for the request.
pub open spec fn bar_plot_ok(
    df: Table,
    xname: Seq<char>,
    y: Seq<String>,
    groups: Option<Seq<String>>,
    bm: Seq<char>,
    pm: PlotModel,
) -> bool {
    &&& bar_layout_ok(xname, y, bm, pm)
    &&& barmode_of(bm) is Some
    &&& bar_traces_ok(df, xname, y, groups, (barmode_of(bm)->0).1, pm)
}

/// The error of one y-column's failed bar trace over one table: the
/// column is absent; or the x-column cannot label; or the y-column has a
/// string or missing value; or, scaling, some row cannot be scaled.
pub open spec fn bar_trace_stage_err(
    t: Table,
    xname: Seq<char>,
    yname: Seq<char>,
    m: Option<ScalerMap>,
    e: Error,
) -> bool {
    match t.col_idx(yname) {
        None => e matches Error::ColumnNotFound(s) && s@ == yname,
        Some(cj) => if !bar_x_ok(t, xname) {
            match t.col_idx(xname) {
                Some(ci) => match t.columns@[ci].data {
                    ColumnData::Strs(cells) => !all_present(cells@) && (e
                        matches Error::MissingValue(s) && s@ == t.columns@[ci].name@),
                    ColumnData::Nums(_) => e matches Error::NotStringColumn(s) && s@
                        == t.columns@[ci].name@,
                },
                None => false,
            }
        } else {
            match t.col_idx(xname) {
                Some(ci) => {
                    ||| bar_y_err(t.columns@[cj], e)
                    ||| (m matches Some(mm) && bar_rows_err(
                        t.columns@[cj],
                        mm,
                        t.columns@[ci].data->Strs_0@,
                        e,
                    ))
                },
                None => {
                    ||| bar_y_err(t.columns@[cj], e)
                    ||| (m matches Some(mm) && bar_rows_err_nums(t.columns@[cj], mm, e))
                },
            }
        },
    }
}

/// True of an error at the trace stage: for some partition (or the whole
/// table, ungrouped) and some y-column, that trace failed.
pub open spec fn bar_stage_err(
    df: Table,
    xname: Seq<char>,
    y: Seq<String>,
    groups: Option<Seq<String>>,
    m: Option<ScalerMap>,
    e: Error,
) -> bool {
    match groups {
        None => exists|j: int|
            0 <= j < y.len() && #[trigger] bar_trace_stage_err(df, xname, y[j]@, m, e),
        Some(gn) => exists|gs: Groups, parts: Seq<(Table, Vec<SelectedGroupCategoryPair>)>, p: int, j: int|
            #[trigger] grouped_bar_err_witness(df, xname, y, gn, m, e, gs, parts, p, j),
    }
}

/// One failing grouped trace: which partition and y-column failed.
pub open spec fn grouped_bar_err_witness(
    df: Table,
    xname: Seq<char>,
    y: Seq<String>,
    gn: Seq<String>,
    m: Option<ScalerMap>,
    e: Error,
    gs: Groups,
    parts: Seq<(Table, Vec<SelectedGroupCategoryPair>)>,
    p: int,
    j: int,
) -> bool {
    &&& groups_built(df, gn, gs)
    &&& parts_match(df, gs.groups@, parts)
    &&& 0 <= p < parts.len()
    &&& 0 <= j < y.len()
    &&& bar_trace_stage_err(parts[p].0, xname, y[j]@, m, e)
}

/// The error of a failed bar request: a bad group column, an unknown
/// bar-mode keyword, a failed proportion fit, or a failed trace, in that
/// order of discovery.
pub open spec fn bar_plot_err(
    df: Table,
    xname: Seq<char>,
    y: Seq<String>,
    groups: Option<Seq<String>>,
    bm: Seq<char>,
    e: Error,
) -> bool {
    ||| (groups matches Some(gn) && exists|i: int|
        0 <= i < gn.len() && #[trigger] group_col_err(df, gn[i]@, e))
    ||| (barmode_of(bm) is None && (e matches Error::UnknownBarMode(w) && w@ == bm))
    ||| (barmode_of(bm) matches Some(b2) && b2.1 && ((!df.group_by_sum_ok(xname, views(y))
        && df.group_by_sum_err(xname, views(y), e)) || scalers_err(df, xname, y, e)))
    ||| (barmode_of(bm) matches Some(b3) && !b3.1 && bar_stage_err(df, xname, y, groups, None, e))
    ||| (barmode_of(bm) matches Some(b4) && b4.1 && exists|m: ScalerMap|
        #[trigger] scalers_built(df, xname, y, m) && bar_stage_err(
            df,
            xname,
            y,
            groups,
            Some(m),
            e,
        ))
}

/// The error of an unscalable row, against row-number labels.
pub open spec fn bar_rows_err_nums(ycol: Column, mm: ScalerMap, e: Error) -> bool {
    &&& ycol.data matches ColumnData::Nums(yc) && all_present(yc@)
    &&& exists|r: int|
        0 <= r < ycol.data->Nums_0@.len() && #[trigger] row_err(
            mm,
            crate::text::dec_chars(r + 1),
            ycol.data->Nums_0@[r]->0,
            e,
        ) && forall|r2: int|
            0 <= r2 < r ==> row_ok(
                mm,
                crate::text::dec_chars(r2 + 1),
                ycol.data->Nums_0@[r2]->0,
            )
}


/// A bar chart request: where the table comes from, which columns to
/// draw, the bar arrangement, and the optional grouping.
pub struct BarArgs {
    /// The path of the tabular input file.
    pub input: String,
    /// The x-column, whose values label the bars.
    pub x: String,
    /// The y-columns, one trace each.
    pub y: Vec<String>,
    /// The path of the output file; absent for an interactive display.
    pub output: Option<String>,
    /// The bar-mode keyword: `group`, `overlay`, `relative`, `stack` or
    /// `proportion`.
    pub barmode: String,
    /// The group columns, outermost first, if grouping was requested.
    pub group: Option<Vec<String>>,
}

impl BarArgs {
    /// Assembles the bar chart over the loaded table.
    pub fn run(self, df: &Table) -> (r: Result<PlotModel, Error>)
        requires
            df.wf(),
        ensures
            match r {
                Ok(pm) => bar_plot_ok(
                    *df,
                    self.x@,
                    self.y@,
                    opt_names(self.group),
                    self.barmode@,
                    pm,
                ),
                Err(e) => bar_plot_err(
                    *df,
                    self.x@,
                    self.y@,
                    opt_names(self.group),
                    self.barmode@,
                    e,
                ),
            },
    {
        plot(df, self.x.as_str(), &self.y, self.group, self.barmode.as_str())
    }
}

/// Assembles the bar chart: one trace per y-column, repeated per group
/// combination when grouping was requested, normalized to per-category
/// proportions under the `proportion` bar-mode.
#[verifier::loop_isolation(false)]
pub fn plot(
    df: &Table,
    x: &str,
    y: &Vec<String>,
    groups: Option<Vec<String>>,
    barmode: &str,
) -> (r: Result<PlotModel, Error>)
    requires
        df.wf(),
    ensures
        match r {
            Ok(pm) => bar_plot_ok(*df, x@, y@, opt_names(groups), barmode@, pm),
            Err(e) => bar_plot_err(*df, x@, y@, opt_names(groups), barmode@, e),
        },
{
    let ghost ggroups = opt_names(groups);
    let built: Option<Groups> = match groups {
        Some(gnames) => {
            let ghost ggn = gnames@;
            match Groups::from_df(df, gnames) {
                Ok(gs) => Some(gs),
                Err(e) => {
                    proof {
                        let i = choose|i: int|
                            0 <= i < ggn.len() && #[trigger] group_col_err(*df, ggn[i]@, e);
                        assert(ggroups matches Some(gn2) && gn2 == ggn);
                        assert(group_col_err(*df, (ggroups->0)[i]@, e));
                        assert(bar_plot_err(*df, x@, y@, ggroups, barmode@, e));
                    }
                    return Err(e);
                },
            }
        },
        None => None,
    };
    let parsed = match parse_barmode(barmode) {
        Ok(t) => t,
        Err(e) => {
            proof {
                assert(bar_plot_err(*df, x@, y@, ggroups, barmode@, e));
            }
            return Err(e);
        },
    };
    let bm = parsed.0;
    let prop = parsed.1;
    let scaler_map: Option<ScalerMap> = if prop {
        match build_scalers(df, x, y) {
            Ok(m) => Some(m),
            Err(e) => {
                proof {
                    assert(bar_plot_err(*df, x@, y@, ggroups, barmode@, e));
                }
                return Err(e);
            },
        }
    } else {
        None
    };
    let ghost gm: Option<ScalerMap> = scaler_map;
    let scaler_ref: Option<&ScalerMap> = match &scaler_map {
        Some(m) => Some(m),
        None => None,
    };
    proof {
        assert(scalers_view(scaler_ref) == gm);
    }
    let ylen = y.len();
    let mut traces: Vec<Trace> = Vec::new();
    let ghost mut gparts: Seq<(Table, Vec<SelectedGroupCategoryPair>)> = Seq::empty();
    match &built {
        Some(gs) => {
            let parts = match gs.partitions(df) {
                Ok(p) => p,
                Err(_) => {
                    proof {
                        let gn = ggroups->0;
                        assert(false) by {
                            if exists|jj: int|
                                0 <= jj < gs.groups@.len() && !crate::group::filter_col_ok(
                                    *df,
                                    (#[trigger] gs.groups@[jj]).column_name@,
                                ) {
                                let jj = choose|jj: int|
                                    0 <= jj < gs.groups@.len() && !crate::group::filter_col_ok(
                                        *df,
                                        (#[trigger] gs.groups@[jj]).column_name@,
                                    );
                                assert(gs.groups@[jj].column_name == gn[jj]);
                                assert(group_col_ok(*df, gn[jj]@));
                            }
                        }
                    }
                    return Err(Error::Overflow);
                },
            };
            proof {
                gparts = parts@;
            }
            let pn = parts.len();
            let mut p: usize = 0;
            while p < pn
                invariant
                    pn == gparts.len(),
                    0 <= p <= pn,
                    traces@.len() == p * ylen,
                    forall|p2: int, j2: int|
                        0 <= p2 < p && 0 <= j2 < ylen ==> is_bar_trace(
                            gparts[p2].0,
                            x@,
                            y@[j2]@,
                            grouped_name(cats_of(gparts[p2].1@), y@[j2]@),
                            gm,
                            #[trigger] traces@[p2 * ylen as int + j2],
                        ),
                decreases pn - p,
            {
                let pref = &parts[p];
                let ptab = &pref.0;
                let combo = &pref.1;
                proof {
                    lemma_partition_shape(
                        *df,
                        crate::group::combos(gs.groups@)[p as int],
                        parts@[p as int].0,
                    );
                }
                let cn = combo.len();
                let mut cats: Vec<String> = Vec::new();
                let mut q: usize = 0;
                while q < cn
                    invariant
                        cn == combo@.len(),
                        0 <= q <= cn,
                        cats@.len() == q,
                        forall|m2: int| 0 <= m2 < q ==> #[trigger] cats@[m2]@ == combo@[m2].category@,
                    decreases cn - q,
                {
                    cats.push(combo[q].category.clone());
                    q += 1;
                }
                proof {
                    assert(views(cats@) =~= cats_of(combo@));
                }
                let mut j: usize = 0;
                while j < ylen
                    invariant
                        pn == gparts.len(),
                        0 <= p < pn,
                        0 <= j <= ylen,
                        parts@ == gparts,
                        pref == &gparts[p as int],
                        ptab == &gparts[p as int].0,
                        combo == &gparts[p as int].1,
                        ptab.wf(),
                        same_shape(*df, *ptab),
                        views(cats@) == cats_of(combo@),
                        traces@.len() == p * ylen + j,
                        gm == scalers_view(scaler_ref),
                        (prop ==> (gm matches Some(mi) && scalers_built(*df, x@, y@, mi))),
                        (!prop ==> gm is None),
                        forall|p2: int, j2: int|
                            0 <= p2 < p && 0 <= j2 < ylen ==> is_bar_trace(
                                gparts[p2].0,
                                x@,
                                y@[j2]@,
                                grouped_name(cats_of(gparts[p2].1@), y@[j2]@),
                                gm,
                                #[trigger] traces@[p2 * ylen as int + j2],
                            ),
                        forall|j2: int|
                            0 <= j2 < j ==> is_bar_trace(
                                gparts[p as int].0,
                                x@,
                                y@[j2]@,
                                grouped_name(cats_of(gparts[p as int].1@), y@[j2]@),
                                gm,
                                #[trigger] traces@[p as int * ylen as int + j2],
                            ),
                    decreases ylen - j,
                {
                    proof {
                        lemma_names_col_idx(df.columns@, ptab.columns@, x@);
                        lemma_names_col_idx(df.columns@, ptab.columns@, y@[j as int]@);
                        crate::table::lemma_col_idx_from(ptab.columns@, x@);
                        crate::table::lemma_col_idx_from(ptab.columns@, y@[j as int]@);
                    }
                    let name = grouped_name_exec(&cats, y[j].as_str());
                    let xcol = match ptab.column(x) {
                        Ok(c) => Some(c),
                        Err(_) => None,
                    };
                    let ycol = match ptab.column(y[j].as_str()) {
                        Ok(c) => c,
                        Err(e) => {
                            proof {
                                assert(bar_trace_stage_err(*ptab, x@, y@[j as int]@, gm, e));
                                assert(grouped_bar_err_witness(
                                    *df,
                                    x@,
                                    y@,
                                    ggroups->0,
                                    gm,
                                    e,
                                    *gs,
                                    gparts,
                                    p as int,
                                    j as int,
                                ));
                                assert(bar_plot_err(*df, x@, y@, ggroups, barmode@, e));
                            }
                            return Err(e);
                        },
                    };
                    proof {
                        if let Some(xc) = xcol {
                            assert(ptab.col_idx(xc.name@) == ptab.col_idx(x@));
                        }
                        assert(ycol.data.spec_len() == ptab.spec_height());
                    }
                    let tr = match trace(xcol, ycol, name, scaler_ref, ptab) {
                        Ok(t) => t,
                        Err(e) => {
                            proof {
                                assert(bar_trace_stage_err(*ptab, x@, y@[j as int]@, gm, e));
                                assert(grouped_bar_err_witness(
                                    *df,
                                    x@,
                                    y@,
                                    ggroups->0,
                                    gm,
                                    e,
                                    *gs,
                                    gparts,
                                    p as int,
                                    j as int,
                                ));
                                assert(bar_plot_err(*df, x@, y@, ggroups, barmode@, e));
                            }
                            return Err(e);
                        },
                    };
                    traces.push(tr);
                    proof {
                        assert forall|p2: int, j2: int|
                            0 <= p2 < p && 0 <= j2 < ylen implies #[trigger] (p2 * ylen as int
                            + j2) < p as int * ylen as int by {
                            assert(p2 * ylen as int + j2 < p as int * ylen as int)
                                by (nonlinear_arith)
                                requires
                                    0 <= p2 < p as int,
                                    0 <= j2 < ylen as int,
                            ;
                        }
                        assert(is_bar_trace(
                            gparts[p as int].0,
                            x@,
                            y@[j as int]@,
                            grouped_name(cats_of(gparts[p as int].1@), y@[j as int]@),
                            gm,
                            traces@[p as int * ylen as int + j as int],
                        ));
                    }
                    j += 1;
                }
                proof {
                    assert(p as int * ylen as int + ylen as int == (p as int + 1) * (
                    ylen as int)) by (nonlinear_arith);
                }
                p += 1;
            }
        },
        None => {
            let mut j: usize = 0;
            while j < ylen
                invariant
                    0 <= j <= ylen,
                    traces@.len() == j,
                    gm == scalers_view(scaler_ref),
                    (prop ==> (gm matches Some(mi) && scalers_built(*df, x@, y@, mi))),
                    (!prop ==> gm is None),
                    forall|j2: int|
                        0 <= j2 < j ==> is_bar_trace(
                            *df,
                            x@,
                            y@[j2]@,
                            y@[j2]@,
                            gm,
                            #[trigger] traces@[j2],
                        ),
                decreases ylen - j,
            {
                proof {
                    crate::table::lemma_col_idx_from(df.columns@, x@);
                    crate::table::lemma_col_idx_from(df.columns@, y@[j as int]@);
                }
                let xcol = match df.column(x) {
                    Ok(c) => Some(c),
                    Err(_) => None,
                };
                let ycol = match df.column(y[j].as_str()) {
                    Ok(c) => c,
                    Err(e) => {
                        proof {
                            assert(bar_trace_stage_err(*df, x@, y@[j as int]@, gm, e));
                            assert(bar_plot_err(*df, x@, y@, ggroups, barmode@, e));
                        }
                        return Err(e);
                    },
                };
                proof {
                    if let Some(xc) = xcol {
                        assert(df.col_idx(xc.name@) == df.col_idx(x@));
                    }
                    assert(ycol.data.spec_len() == df.spec_height());
                }
                let name = ycol.name.clone();
                let tr = match trace(xcol, ycol, name, scaler_ref, df) {
                    Ok(t) => t,
                    Err(e) => {
                        proof {
                            assert(bar_trace_stage_err(*df, x@, y@[j as int]@, gm, e));
                            assert(bar_plot_err(*df, x@, y@, ggroups, barmode@, e));
                        }
                        return Err(e);
                    },
                };
                traces.push(tr);
                proof {
                    assert(is_bar_trace(*df, x@, y@[j as int]@, y@[j as int]@, gm, traces@[j as int]));
                }
                j += 1;
            }
        },
    }
    let x_title = Some(x.to_owned());
    let y_title = if y.len() == 1 {
        Some(y[0].clone())
    } else {
        None
    };
    let pm = PlotModel { traces, x_title, y_title, bar_mode: Some(bm) };
    proof {
        assert(bar_layout_ok(x@, y@, barmode@, pm));
        if let Some(gs) = built {
            let gn = ggroups->0;
            assert(grouped_bar_witness(*df, x@, y@, gn, gm, pm, gs, gparts));
        }
        assert(bar_traces_with(*df, x@, y@, ggroups, gm, pm));
        if prop {
            assert(scalers_built(*df, x@, y@, gm->0));
            assert(bar_traces_ok(*df, x@, y@, ggroups, true, pm));
        } else {
            assert(bar_traces_ok(*df, x@, y@, ggroups, false, pm));
        }
        assert(bar_plot_ok(*df, x@, y@, ggroups, barmode@, pm));
    }
    Ok(pm)
}

} // verus!
