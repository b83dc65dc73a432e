//! Scoring the nodularity of the liver surface.
use vstd::prelude::*;

pub mod error;
pub mod points;

verus! {

/// What a computation of the score yields.
pub type CalcResult<T> = Result<T, error::CalcError>;

} // verus!
