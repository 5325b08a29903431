//! Charts over numeric y-values: scatter, box and histogram.

pub mod boxplot;
pub mod histogram;
pub mod scatter;
