//! Exact fractions for the constants that the solver takes as reals.

use vstd::prelude::*;

verus! {

/// The fraction `numerator / denominator`.
#[derive(Clone, Copy, Debug, PartialEq, Eq, Structural)]
pub struct Ratio {
    pub numerator: i32,
    pub denominator: u32,
}

impl Ratio {
    /// The fraction of the two given numbers.
    pub open spec fn of(numerator: int, denominator: int) -> Ratio {
        Ratio { numerator: numerator as i32, denominator: denominator as u32 }
    }
}

} // verus!
