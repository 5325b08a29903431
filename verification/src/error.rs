//! The error type shared by every fallible operation of the library.
//!
//! Every error is unrecoverable at the point of detection: callers propagate
//! it immediately and no partial chart is assembled.

use vstd::prelude::*;

verus! {

/// What went wrong while assembling a chart model.
#[derive(Debug, Clone, PartialEq, Eq)]
pub enum Error {
    /// A requested column is not present in the table.
    ColumnNotFound(String),
    /// A column was expected to hold strings but holds numbers.
    NotStringColumn(String),
    /// A column was expected to hold numbers but holds strings.
    NotNumericColumn(String),
    /// A cell was missing where a value is required.
    MissingValue(String),
    /// The bar-mode keyword is not one of the recognized ones.
    UnknownBarMode(String),
    /// A scatter-mode keyword is not one of the recognized ones.
    UnknownPlotMode(String),
    /// A negative value was handed to the proportion scaler.
    NegativeObservation,
    /// A value without a finite magnitude was handed to the proportion scaler.
    NonFiniteObservation,
    /// A category's observations sum to zero, so no proportion is defined.
    ZeroTotal,
    /// An x-label is absent from the fitted proportion mapping.
    CategoryNotFound(String),
    /// An intermediate count or sum exceeded the machine's integer range.
    Overflow,
}

} // verus!
