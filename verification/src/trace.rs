//! The chart model: a closed set of renderable trace kinds, and the
//! assembled plot — traces plus axis titling and bar-mode settings. The
//! surrounding process turns this model into an interactive view or a
//! file; the library only builds it.

use vstd::prelude::*;

use crate::num::{Frac, Num};

verus! {

/// How a scatter trace is drawn: any combination of lines, markers and
/// text, or nothing at all ([`Mode::Hidden`], the keyword `none`).
#[derive(Debug, Clone, Copy, PartialEq, Eq, Structural)]
pub enum Mode {
    /// Lines only.
    Lines,
    /// Markers only.
    Markers,
    /// Text only.
    Text,
    /// Lines and markers.
    LinesMarkers,
    /// Lines, markers and text.
    LinesMarkersText,
    /// Lines and text.
    LinesText,
    /// Markers and text.
    MarkersText,
    /// Nothing is drawn.
    Hidden,
}

/// How bars of different series are arranged.
#[derive(Debug, Clone, Copy, PartialEq, Eq, Structural)]
pub enum BarMode {
    /// Side by side.
    Group,
    /// On top of one another, overlapping.
    Overlay,
    /// Stacked, with negative values below the axis.
    Relative,
    /// Stacked.
    Stack,
}

/// The x-values of a scatter trace: the cells of an x-column, or, when no
/// x-column was given, the one-based row numbers `1..=count`.
#[derive(Debug, PartialEq, Eq)]
pub enum ScatterX {
    /// Cells of the x-column.
    Cells(Vec<Option<Num>>),
    /// One-based row numbers, this many.
    RowNumbers(usize),
}

/// One named, renderable series.
#[derive(Debug, PartialEq, Eq)]
pub enum Trace {
    /// A scatter trace.
    Scatter {
        /// The trace's name.
        name: String,
        /// The x-values.
        x: ScatterX,
        /// The y-values.
        y: Vec<Option<Num>>,
        /// The drawing mode, if one was requested.
        mode: Option<Mode>,
    },
    /// A bar trace of raw values.
    Bar {
        /// The trace's name.
        name: String,
        /// The category label of each bar.
        x: Vec<String>,
        /// The height of each bar.
        y: Vec<Num>,
    },
    /// A bar trace of per-category proportions.
    ProportionBar {
        /// The trace's name.
        name: String,
        /// The category label of each bar.
        x: Vec<String>,
        /// The exact fraction of its category's total each bar stands for.
        y: Vec<Frac>,
    },
    /// A box trace.
    BoxPlot {
        /// The trace's name.
        name: String,
        /// The values the box summarizes.
        y: Vec<Option<Num>>,
    },
    /// A histogram over numeric values.
    HistogramNums {
        /// The trace's name.
        name: String,
        /// The binned values.
        x: Vec<Option<Num>>,
    },
    /// A histogram over string values.
    HistogramStrs {
        /// The trace's name.
        name: String,
        /// The counted values.
        x: Vec<Option<String>>,
    },
}

/// An assembled chart: its traces, in emission order, and its layout.
#[derive(Debug, PartialEq, Eq)]
pub struct PlotModel {
    /// The traces, in the deterministic combination-then-series order.
    pub traces: Vec<Trace>,
    /// The x-axis title, if any.
    pub x_title: Option<String>,
    /// The y-axis title, if any.
    pub y_title: Option<String>,
    /// The bar arrangement, for bar charts.
    pub bar_mode: Option<BarMode>,
}

} // verus!
