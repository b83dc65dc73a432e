//! The record of the pixels that refining a surface has changed.
use crate::Idx2d;
use vstd::prelude::*;

verus! {

/// How refining changed a pixel.
#[derive(Copy, Clone, Debug)]
pub enum Modified {
    /// From foreground to background.
    F2B,
    /// From background to foreground, which here means liver.
    B2F,
}

/// The pixels that refining changed, each with the way it was changed.
#[derive(Clone, Debug)]
pub struct Refined {
    data: Vec<Idx2d>,
    how: Vec<Modified>,
}

impl Refined {
    /// The changed pixels, in the order in which they were recorded.
    pub closed spec fn pixels(self) -> Seq<Idx2d> {
        self.data@
    }

    /// The ways in which the pixels were changed, in the same order.
    pub closed spec fn manners(self) -> Seq<Modified> {
        self.how@
    }

    /// Every pixel on record has its manner.
    pub open spec fn wf(self) -> bool {
        self.pixels().len() == self.manners().len()
    }

    /// Number of changed pixels.
    #[inline]
    pub fn len(&self) -> (r: usize)
        ensures
            r == self.pixels().len(),
    {
        self.data.len()
    }

    /// Whether no pixel was changed.
    #[inline]
    pub fn is_empty(&self) -> (r: bool)
        ensures
            r == (self.pixels().len() == 0),
    {
        self.data.len() == 0
    }

    /// The changed pixel number `index` and the way it was changed.
    #[inline]
    pub fn at(&self, index: usize) -> (r: (Idx2d, Modified))
        requires
            self.wf(),
            index < self.pixels().len(),
        ensures
            r == (self.pixels()[index as int], self.manners()[index as int]),
    {
        (self.data[index], self.how[index])
    }

    /// All changed pixels with the ways they were changed, in the order in
    /// which they were recorded.
    pub fn iter(&self) -> (r: Vec<(Idx2d, Modified)>)
        requires
            self.wf(),
        ensures
            r@.len() == self.pixels().len(),
            forall|i: int|
                0 <= i < r@.len() ==> #[trigger] r@[i] == (self.pixels()[i], self.manners()[i]),
    {
        let mut out: Vec<(Idx2d, Modified)> = Vec::with_capacity(self.data.len());
        let mut i: usize = 0;
        while i < self.data.len()
            invariant
                self.wf(),
                0 <= i <= self.data@.len(),
                out@.len() == i,
                forall|j: int|
                    0 <= j < i ==> #[trigger] out@[j] == (self.pixels()[j], self.manners()[j]),
            decreases self.data@.len() - i,
        {
            out.push((self.data[i], self.how[i]));
            i += 1;
        }
        out
    }

    /// The changed pixels and the ways they were changed, as two lists.
    #[inline]
    pub fn into_raw(self) -> (r: (Vec<Idx2d>, Vec<Modified>))
        ensures
            r.0@ == self.pixels(),
            r.1@ == self.manners(),
    {
        (self.data, self.how)
    }

    /// A record without pixels.
    #[inline]
    pub fn new() -> (r: Self)
        ensures
            r.wf(),
            r.pixels() == Seq::<Idx2d>::empty(),
            r.manners() == Seq::<Modified>::empty(),
    {
        Refined { data: Vec::with_capacity(4), how: Vec::with_capacity(4) }
    }

    /// Records that the pixel `index` was changed in the way `how`.
    #[inline]
    pub fn push(&mut self, index: Idx2d, how: Modified)
        requires
            old(self).wf(),
        ensures
            final(self).wf(),
            final(self).pixels() == old(self).pixels().push(index),
            final(self).manners() == old(self).manners().push(how),
    {
        self.data.push(index);
        self.how.push(how);
    }
}

} // verus!
