//! Exact rational results of a fit.

use vstd::prelude::*;

verus! {

/// An exact rational number `num / den`, the result type of a fit.
///
/// Values produced by this crate always satisfy [`Ratio::wf`]: the
/// denominator is positive. Fractions are not reduced; two `Ratio` values
/// stand for the same number exactly when cross-multiplication agrees,
/// `a.num * b.den == b.num * a.den`.
#[derive(Clone, Copy, Debug, PartialEq, Eq, Structural)]
pub struct Ratio {
    pub num: i128,
    pub den: i128,
}

impl Ratio {
    /// A well-formed ratio has a positive denominator.
    pub open spec fn wf(self) -> bool {
        self.den > 0
    }
}

} // verus!
