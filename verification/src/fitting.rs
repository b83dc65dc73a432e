//! Kinds of curves that can be fitted to a surface.
use vstd::prelude::*;

verus! {

/// The kind of a fitted curve.
#[derive(Copy, Clone, Debug)]
pub enum CurveType {
    /// A polynomial.
    Polynomial {
        /// The degree of the polynomial.
        degree: u32,
    },
    /// A cubic spline.
    CubicSpline,
}

} // verus!
