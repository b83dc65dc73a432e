//! Horizontal slices of a volume.
use vstd::prelude::*;

pub mod iter;
pub mod mirror;

verus! {

} // verus!
