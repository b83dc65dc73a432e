//! Counting and timing the runs of an algorithm over many slices.
use vstd::prelude::*;

pub mod clock;
pub mod profile;
pub mod result;

verus! {

} // verus!
