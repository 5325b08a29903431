//! The histogram chart: one histogram trace per requested x-column, over
//! numeric or string values alike.

use vstd::prelude::*;

use crate::df::views;
use crate::error::Error;
use crate::table::{clone_data, Column, ColumnData, Table};
use crate::trace::{PlotModel, Trace};

verus! {

/// True when `tr` is the histogram trace of the column `xname` of `df`:
/// named after the column and carrying its cells, numeric or string.
pub open spec fn is_hist_trace(df: Table, xname: Seq<char>, tr: Trace) -> bool {
    &&& df.col_idx(xname) matches Some(ci)
    &&& match df.columns@[ci].data {
        ColumnData::Nums(cells) => tr matches Trace::HistogramNums { name, x } && name@
            == df.columns@[ci].name@ && x@ == cells@,
        ColumnData::Strs(cells) => tr matches Trace::HistogramStrs { name, x } && name@
            == df.columns@[ci].name@ && x@ == cells@,
    }
}

/// True when `pm` is the assembled histogram chart: one histogram per
/// requested column, in order, `count` as the y-axis title, and the
/// single column's name as the x-axis title when exactly one was
/// requested.
pub open spec fn histogram_plot_ok(df: Table, x: Seq<Seq<char>>, pm: PlotModel) -> bool {
    &&& pm.traces@.len() == x.len()
    &&& forall|j: int| 0 <= j < x.len() ==> is_hist_trace(df, x[j], #[trigger] pm.traces@[j])
    &&& (if x.len() == 1 {
        pm.x_title matches Some(t) && t@ == x[0]
    } else {
        pm.x_title is None
    })
    &&& pm.y_title matches Some(t) && t@ == "count"@
    &&& pm.bar_mode is None
}

/// A histogram chart request: where the table comes from, which columns
/// to bin, and where the chart goes.
pub struct HistogramArgs {
    /// The path of the tabular input file.
    pub input: String,
    /// The x-columns, one histogram each.
    pub x: Vec<String>,
    /// The path of the output file; absent for an interactive display.
    pub output: Option<String>,
}

impl HistogramArgs {
    /// Assembles the histogram chart over the loaded table.
    pub fn run(self, df: &Table) -> (r: Result<PlotModel, Error>)
        ensures
            match r {
                Ok(pm) => histogram_plot_ok(*df, views(self.x@), pm),
                Err(e) => exists|j: int|
                    0 <= j < self.x@.len() && df.col_idx((#[trigger] self.x@[j])@) is None && (e
                        matches Error::ColumnNotFound(s) && s@ == self.x@[j]@) && forall|m: int|
                        0 <= m < j ==> df.col_idx(self.x@[m]@) is Some,
            },
    {
        plot(df, &self.x)
    }
}

/// Builds one histogram trace from a column of either element type.
fn trace(x: &Column) -> (tr: Trace)
    ensures
        match x.data {
            ColumnData::Nums(cells) => tr matches Trace::HistogramNums { name, x: xv } && name@
                == x.name@ && xv@ == cells@,
            ColumnData::Strs(cells) => tr matches Trace::HistogramStrs { name, x: xv } && name@
                == x.name@ && xv@ == cells@,
        },
{
    match clone_data(&x.data) {
        ColumnData::Nums(cells) => Trace::HistogramNums { name: x.name.clone(), x: cells },
        ColumnData::Strs(cells) => Trace::HistogramStrs { name: x.name.clone(), x: cells },
    }
}

/// Assembles the histogram chart: one histogram trace per requested
/// x-column, in order. Fails exactly at the first requested column that
/// is absent.
pub fn plot(df: &Table, x: &Vec<String>) -> (r: Result<PlotModel, Error>)
    ensures
        match r {
            Ok(pm) => histogram_plot_ok(*df, views(x@), pm),
            Err(e) => exists|j: int|
                0 <= j < x@.len() && df.col_idx((#[trigger] x@[j])@) is None && (e
                    matches Error::ColumnNotFound(s) && s@ == x@[j]@) && forall|m: int|
                    0 <= m < j ==> df.col_idx(x@[m]@) is Some,
        },
{
    let n = x.len();
    let mut traces: Vec<Trace> = Vec::new();
    let mut j: usize = 0;
    while j < n
        invariant
            n == x@.len(),
            0 <= j <= n,
            traces@.len() == j,
            forall|m: int| 0 <= m < j ==> is_hist_trace(*df, x@[m]@, #[trigger] traces@[m]),
            forall|m: int| 0 <= m < j ==> df.col_idx((#[trigger] x@[m])@) is Some,
        decreases n - j,
    {
        let col = match df.column(x[j].as_str()) {
            Ok(c) => c,
            Err(e) => {
                return Err(e);
            },
        };
        let tr = trace(col);
        traces.push(tr);
        j += 1;
    }
    let x_title = if x.len() == 1 {
        Some(x[0].clone())
    } else {
        None
    };
    let y_title = String::from_str("count");
    proof {
        reveal_strlit("count");
    }
    let pm = PlotModel { traces, x_title, y_title: Some(y_title), bar_mode: None };
    proof {
        assert(forall|j2: int|
            0 <= j2 < views(x@).len() ==> #[trigger] views(x@)[j2] == x@[j2]@);
    }
    Ok(pm)
}

} // verus!
