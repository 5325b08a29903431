//! Chart-model library for tabular data: partitions a table into every
//! combination of requested group-column categories, normalizes stacked
//! series to per-category proportions, and assembles named chart traces.
//!
//! All numeric data is carried as [`num::Num`]: a finite value in
//! caller-chosen fixed-point units, or a marker for a value with no finite
//! magnitude. The surrounding process converts its machine numbers to and
//! from this representation at the boundary, loads the tabular file into a
//! [`table::Table`], and renders the resulting [`trace::PlotModel`].

use vstd::prelude::*;

pub mod categorical;
pub mod df;
pub mod error;
pub mod group;
pub mod num;
pub mod numeral;
pub mod scale;
pub mod table;
pub mod text;
pub mod trace;

use crate::categorical::bar::{bar_plot_err, bar_plot_ok, BarArgs};
use crate::error::Error;
use crate::numeral::boxplot::{box_plot_ok, BoxArgs};
use crate::numeral::histogram::{histogram_plot_ok, HistogramArgs};
use crate::numeral::scatter::{opt_names, scatter_plot_err, scatter_plot_ok, ScatterArgs};
use crate::table::Table;
use crate::trace::PlotModel;

verus! {

/// The chart-type request: which chart to assemble, with its arguments.
pub enum Command {
    /// A scatter chart.
    Scatter(ScatterArgs),
    /// A histogram chart.
    Histogram(HistogramArgs),
    /// A box chart.
    BoxChart(BoxArgs),
    /// A bar chart.
    Bar(BarArgs),
}

impl Command {
    /// Assembles the requested chart over the loaded table, dispatching on
    /// the chart type.
    pub fn run(self, df: &Table) -> (r: Result<PlotModel, Error>)
        requires
            df.wf(),
        ensures
            match self {
                Command::Scatter(args) => match r {
                    Ok(pm) => scatter_plot_ok(
                        *df,
                        args.x@,
                        args.y@,
                        opt_names(args.group),
                        (match args.mode {
                            Some(ms) => Some(ms@),
                            None => None,
                        }),
                        pm,
                    ),
                    Err(e) => scatter_plot_err(
                        *df,
                        args.x@,
                        args.y@,
                        opt_names(args.group),
                        (match args.mode {
                            Some(ms) => Some(ms@),
                            None => None,
                        }),
                        e,
                    ),
                },
                Command::Histogram(args) => match r {
                    Ok(pm) => histogram_plot_ok(*df, crate::df::views(args.x@), pm),
                    Err(e) => exists|j: int|
                        0 <= j < args.x@.len() && df.col_idx((#[trigger] args.x@[j])@) is None
                            && (e matches Error::ColumnNotFound(s) && s@ == args.x@[j]@),
                },
                Command::BoxChart(args) => match r {
                    Ok(pm) => box_plot_ok(*df, crate::df::views(args.y@), pm),
                    Err(e) => exists|j: int|
                        0 <= j < args.y@.len() && #[trigger] crate::df::num_col_err(
                            *df,
                            args.y@[j]@,
                            e,
                        ),
                },
                Command::Bar(args) => match r {
                    Ok(pm) => bar_plot_ok(
                        *df,
                        args.x@,
                        args.y@,
                        opt_names(args.group),
                        args.barmode@,
                        pm,
                    ),
                    Err(e) => bar_plot_err(
                        *df,
                        args.x@,
                        args.y@,
                        opt_names(args.group),
                        args.barmode@,
                        e,
                    ),
                },
            },
    {
        match self {
            Command::Scatter(args) => args.run(df),
            Command::Histogram(args) => args.run(df),
            Command::BoxChart(args) => args.run(df),
            Command::Bar(args) => args.run(df),
        }
    }
}

} // verus!
