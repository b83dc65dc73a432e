//! What is done to a slice after its surface has been found.
use vstd::prelude::*;

pub mod locate_lls;
pub mod refine;

verus! {

} // verus!
