//! Charts over categorical x-values: the bar chart.

pub mod bar;
