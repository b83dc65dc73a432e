//! The indices of a slice in row-major order.
use crate::Idx2d;
use vstd::prelude::*;

verus! {

/// The pixel after `p` in row-major order, inside a slice of the given
/// shape; after the last pixel comes the first of the row below the slice.
pub open spec fn following(shape: Idx2d, p: Idx2d) -> Idx2d {
    if p.1 + 1 == shape.1 {
        ((p.0 + 1) as usize, 0)
    } else {
        (p.0, (p.1 + 1) as usize)
    }
}

/// Walks the indices of a slice row by row.
#[derive(Debug)]
pub struct PosIter {
    cur_h: usize,
    cur_w: usize,
    h: usize,
    w: usize,
}

impl PosIter {
    #[verifier::type_invariant]
    spec fn well_formed(self) -> bool {
        self.cur_h <= self.h && (self.cur_h < self.h && self.w > 0 ==> self.cur_w < self.w)
    }

    /// Height and width of the slice.
    pub closed spec fn shape(self) -> Idx2d {
        (self.h, self.w)
    }

    /// The index that comes next.
    pub closed spec fn cursor(self) -> Idx2d {
        (self.cur_h, self.cur_w)
    }

    /// Whether all indices have been handed out.
    pub open spec fn done(self) -> bool {
        self.shape().0 == 0 || self.shape().1 == 0 || self.cursor().0 == self.shape().0
    }

    /// A walk over a slice of the shape `(height, width)`, from its first index.
    #[inline]
    pub fn new(shape: Idx2d) -> (r: Self)
        ensures
            r.shape() == shape,
            r.cursor() == (0usize, 0usize),
    {
        PosIter { cur_h: 0, cur_w: 0, h: shape.0, w: shape.1 }
    }

    /// Hands out the index that comes next and moves on, or `None` when
    /// all indices have been handed out.
    pub fn next(&mut self) -> (r: Option<Idx2d>)
        ensures
            final(self).shape() == old(self).shape(),
            match r {
                Some(p) => !old(self).done() && p == old(self).cursor() && p.0 < old(
                    self,
                ).shape().0 && p.1 < old(self).shape().1 && final(self).cursor() == following(
                    old(self).shape(),
                    p,
                ),
                None => old(self).done() && final(self).cursor() == old(self).cursor(),
            },
    {
        proof {
            use_type_invariant(&*self);
        }
        if self.h == 0 || self.w == 0 || self.cur_h == self.h {
            return None;
        }
        let ret_pos = (self.cur_h, self.cur_w);
        if self.cur_w + 1 == self.w {
            self.cur_w = 0;
            self.cur_h += 1;
        } else {
            self.cur_w += 1;
        }
        Some(ret_pos)
    }
}

} // verus!
