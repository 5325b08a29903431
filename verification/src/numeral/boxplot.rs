//! The box chart: one box trace per requested y-column.

use vstd::prelude::*;

use crate::df::{num_col_err, num_col_ok, opt_num_values};
use crate::error::Error;
use crate::table::{ColumnData, Table};
use crate::trace::{PlotModel, Trace};

verus! {

/// True when `tr` is the box trace of the numeric column `yname` of `df`:
/// named after the column and carrying its cells.
pub open spec fn is_box_trace(df: Table, yname: Seq<char>, tr: Trace) -> bool {
    &&& df.col_idx(yname) matches Some(ci)
    &&& df.columns@[ci].data matches ColumnData::Nums(cells)
    &&& tr matches Trace::BoxPlot { name, y } && name@ == df.columns@[ci].name@ && y@ == cells@
}

/// A box chart request: where the table comes from, which columns to
/// summarize, and where the chart goes.
pub struct BoxArgs {
    /// The path of the tabular input file.
    pub input: String,
    /// The y-columns, one box each.
    pub y: Vec<String>,
    /// The path of the output file; absent for an interactive display.
    pub output: Option<String>,
}

impl BoxArgs {
    /// Assembles the box chart over the loaded table.
    pub fn run(self, df: &Table) -> (r: Result<PlotModel, Error>)
        ensures
            match r {
                Ok(pm) => box_plot_ok(*df, views(self.y@), pm),
                Err(e) => exists|j: int|
                    0 <= j < self.y@.len() && #[trigger] num_col_err(*df, self.y@[j]@, e)
                        && forall|m: int| 0 <= m < j ==> num_col_ok(*df, self.y@[m]@),
            },
    {
        plot(df, &self.y)
    }
}

/// True when `pm` is the assembled box chart: one box per requested
/// column, in order, and the single column's name as the x-axis title
/// when exactly one was requested.
pub open spec fn box_plot_ok(df: Table, y: Seq<Seq<char>>, pm: PlotModel) -> bool {
    &&& pm.traces@.len() == y.len()
    &&& forall|j: int| 0 <= j < y.len() ==> is_box_trace(df, y[j], #[trigger] pm.traces@[j])
    &&& (if y.len() == 1 {
        pm.x_title matches Some(t) && t@ == y[0]
    } else {
        pm.x_title is None
    })
    &&& pm.y_title is None
    &&& pm.bar_mode is None
}

/// The character sequences of the requested column names.
pub open spec fn views(names: Seq<String>) -> Seq<Seq<char>> {
    crate::df::views(names)
}

/// Builds one box trace from a numeric column.
fn trace(y: &crate::table::Column) -> (r: Result<Trace, Error>)
    ensures
        match r {
            Ok(tr) => y.data matches ColumnData::Nums(cells) && (tr matches Trace::BoxPlot {
                name,
                y: yv,
            } && name@ == y.name@ && yv@ == cells@),
            Err(e) => y.data is Strs && (e matches Error::NotNumericColumn(s) && s@ == y.name@),
        },
{
    let cells = match opt_num_values(y) {
        Ok(v) => v,
        Err(e) => {
            return Err(e);
        },
    };
    Ok(Trace::BoxPlot { name: y.name.clone(), y: cells })
}

/// Assembles the box chart: one box trace per requested y-column, in
/// order. Fails exactly at the first requested column that is absent or
/// not numeric.
pub fn plot(df: &Table, y: &Vec<String>) -> (r: Result<PlotModel, Error>)
    ensures
        match r {
            Ok(pm) => box_plot_ok(*df, views(y@), pm),
            Err(e) => exists|j: int|
                0 <= j < y@.len() && #[trigger] num_col_err(*df, y@[j]@, e) && forall|m: int|
                    0 <= m < j ==> num_col_ok(*df, y@[m]@),
        },
{
    let n = y.len();
    let mut traces: Vec<Trace> = Vec::new();
    let mut j: usize = 0;
    while j < n
        invariant
            n == y@.len(),
            0 <= j <= n,
            traces@.len() == j,
            forall|m: int| 0 <= m < j ==> is_box_trace(*df, y@[m]@, #[trigger] traces@[m]),
            forall|m: int| 0 <= m < j ==> num_col_ok(*df, y@[m]@),
        decreases n - j,
    {
        let col = match df.column(y[j].as_str()) {
            Ok(c) => c,
            Err(e) => {
                proof {
                    assert(num_col_err(*df, y@[j as int]@, e));
                }
                return Err(e);
            },
        };
        proof {
            crate::table::lemma_col_idx_from(df.columns@, y@[j as int]@);
        }
        let tr = match trace(col) {
            Ok(t) => t,
            Err(e) => {
                proof {
                    assert(num_col_err(*df, y@[j as int]@, e));
                }
                return Err(e);
            },
        };
        traces.push(tr);
        j += 1;
    }
    let x_title = if y.len() == 1 {
        Some(y[0].clone())
    } else {
        None
    };
    let pm = PlotModel { traces, x_title, y_title: None, bar_mode: None };
    proof {
        assert(forall|j2: int|
            0 <= j2 < views(y@).len() ==> #[trigger] views(y@)[j2] == y@[j2]@);
    }
    Ok(pm)
}

} // verus!
