//! Neighbourhoods of a pixel.
use crate::Idx2d;
use crate::data::geometry::after;
use crate::data::geometry::before;
use crate::data::geometry::step_down;
use crate::data::geometry::step_up;
use vstd::prelude::*;

verus! {

/// The four pixels next to `(h, w)`: above, below, left, right.  A pixel
/// that would lie before the first row or column is given the index
/// `usize::MAX`, which no slice holds.
#[inline]
pub fn neighbour4(pos: Idx2d) -> (r: [Idx2d; 4])
    ensures
        r[0] == (step_down(pos.0), pos.1),
        r[1] == (step_up(pos.0), pos.1),
        r[2] == (pos.0, step_down(pos.1)),
        r[3] == (pos.0, step_up(pos.1)),
{
    let (h, w) = pos;
    [(before(h), w), (after(h), w), (h, before(w)), (h, after(w))]
}

/// The eight pixels around `(h, w)`, row by row.  A pixel that would lie
/// before the first row or column is given the index `usize::MAX`, which no
/// slice holds.
#[inline]
pub fn neighbour8(pos: Idx2d) -> (r: [Idx2d; 8])
    ensures
        r[0] == (step_down(pos.0), step_down(pos.1)),
        r[1] == (step_down(pos.0), pos.1),
        r[2] == (step_down(pos.0), step_up(pos.1)),
        r[3] == (pos.0, step_down(pos.1)),
        r[4] == (pos.0, step_up(pos.1)),
        r[5] == (step_up(pos.0), step_down(pos.1)),
        r[6] == (step_up(pos.0), pos.1),
        r[7] == (step_up(pos.0), step_up(pos.1)),
{
    let (h, w) = pos;
    [
        (before(h), before(w)),
        (before(h), w),
        (before(h), after(w)),
        (h, before(w)),
        (h, after(w)),
        (after(h), before(w)),
        (after(h), w),
        (after(h), after(w)),
    ]
}

} // verus!
