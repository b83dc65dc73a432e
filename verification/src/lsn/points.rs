//! Distances between neighbouring points of a surface.
use vstd::prelude::*;

verus! {

/// How far apart two pixels are that differ by the given amounts along the two axes.
#[derive(Debug, Copy, Clone)]
pub enum DistanceKind {
    /// Side by side: one pixel apart.
    One,
    /// Corner to corner: the diagonal of a pixel apart.
    SqrtTwo,
    /// Not next to each other.
    NotEightConnected,
}

/// The kind of distance between two pixels that differ by `manhattan1` and
/// `manhattan2` along the two axes.
pub open spec fn distance_kind(manhattan1: usize, manhattan2: usize) -> DistanceKind {
    if (manhattan1 == 1 && manhattan2 == 0) || (manhattan1 == 0 && manhattan2 == 1) {
        DistanceKind::One
    } else if manhattan1 == 1 && manhattan2 == 1 {
        DistanceKind::SqrtTwo
    } else {
        DistanceKind::NotEightConnected
    }
}

impl DistanceKind {
    /// The kind of distance between two pixels that differ by `manhattan1`
    /// and `manhattan2` along the two axes.
    #[inline]
    pub fn new(manhattan1: usize, manhattan2: usize) -> (r: Self)
        ensures
            r == distance_kind(manhattan1, manhattan2),
    {
        match (manhattan1, manhattan2) {
            (1, 0) | (0, 1) => DistanceKind::One,
            (1, 1) => DistanceKind::SqrtTwo,
            _ => DistanceKind::NotEightConnected,
        }
    }
}

} // verus!
