//! What can go wrong while sampling or fitting.
use vstd::prelude::*;

verus! {

/// Reasons for which sampling or fitting fails.
#[derive(Debug, Clone)]
pub enum CalcError {
    /// The left lateral segment is too short.
    LengthTooShort,
    /// There is no fitted curve.
    FitCurveDoesNotExist,
    /// There are too few samples to fit a curve: the number at hand, and
    /// the number that is needed at least.
    TooFewSamples(u32, u32),
}

} // verus!
