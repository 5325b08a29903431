//! The numeric value model of the library.
//!
//! A [`Num`] is what a numeric table cell or observation can be: a finite
//! value, carried as a signed integer in fixed-point units chosen by the
//! caller, or [`Num::NotFinite`] for a value with no finite magnitude.
//! Proportions are exact fractions of two such integers ([`Frac`]); the unit
//! cancels, so a proportion is the same whatever unit the caller chose.

use vstd::prelude::*;

verus! {

/// A numeric value: finite (in caller-chosen fixed-point units) or not.
#[derive(Debug, Clone, Copy, PartialEq, Eq, Structural)]
pub enum Num {
    /// A finite value, as an integer count of the caller's unit.
    Finite(i64),
    /// A value with no finite magnitude.
    NotFinite,
}

impl Num {
    /// True of a value the proportion scaler accepts: finite and not negative.
    pub open spec fn is_valid_observation(self) -> bool {
        match self {
            Num::Finite(v) => v >= 0,
            Num::NotFinite => false,
        }
    }

    /// The finite magnitude; meaningful only when the value is finite.
    pub open spec fn magnitude(self) -> int {
        match self {
            Num::Finite(v) => v as int,
            Num::NotFinite => 0,
        }
    }
}

/// An exact non-negative fraction `num / den` with a positive denominator.
#[derive(Debug, Clone, Copy, PartialEq, Eq, Structural)]
pub struct Frac {
    /// The numerator.
    pub num: i64,
    /// The denominator; always positive.
    pub den: i64,
}

impl Frac {
    /// A well-formed fraction: non-negative and with a positive denominator.
    pub open spec fn wf(self) -> bool {
        self.den > 0 && self.num >= 0
    }
}

} // verus!
