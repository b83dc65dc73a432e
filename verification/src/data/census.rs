//! Counting and listing the voxels of a volume by their labels.
use crate::consts::gray::is_liver;
use crate::consts::gray::is_liver_or_tumor;
use crate::consts::gray::is_tumor;
use crate::consts::gray::LITS_LIVER;
use crate::consts::gray::LITS_TUMOR;
use crate::data::geometry::pos_lt;
use crate::data::grid::row_major;
use crate::data::grid::within;
use crate::data::lists::lemma_push_grows;
use crate::data::morph_3d::lemma_successor;
use crate::data::morph_3d::successor;
use crate::data::CtLabel;
use crate::data::Volume;
use crate::Idx3d;
use vstd::prelude::*;

verus! {

impl Volume {
    /// The voxels that hold `label`.
    pub open spec fn labelled(self, label: u8) -> Set<Idx3d> {
        Set::new(|p: Idx3d| self.has(p) && self.labels[p] == label)
    }
}

/// Whether the indices of a list come in the order of indices, each before the next.
pub open spec fn ascending(list: Seq<Idx3d>) -> bool {
    forall|i: int, j: int| 0 <= i < j < list.len() ==> pos_lt(list[i], list[j])
}

/// The voxels of a grid are as many as the product of its axes, and the
/// place of a voxel in row-major order is one of them.
pub proof fn lemma_row_major_bound(shape: Idx3d, p: Idx3d)
    requires
        within(shape, p),
    ensures
        0 <= row_major(shape, p) < shape.0 * shape.1 * shape.2,
{
    let (z, h, w) = (shape.0 as int, shape.1 as int, shape.2 as int);
    let a = p.0 * h + p.1;
    assert(p.0 * h <= (z - 1) * h) by (nonlinear_arith)
        requires
            0 <= p.0 <= z - 1,
            h >= 0,
    ;
    assert((z - 1) * h == z * h - h) by (nonlinear_arith);
    assert(0 <= a <= z * h - 1) by (nonlinear_arith)
        requires
            a == p.0 * h + p.1,
            0 <= p.0 * h <= z * h - h,
            0 <= p.1 <= h - 1,
    ;
    assert(a * w <= (z * h - 1) * w) by (nonlinear_arith)
        requires
            0 <= a <= z * h - 1,
            w >= 0,
    ;
    assert((z * h - 1) * w == z * h * w - w) by (nonlinear_arith);
    assert(a * w >= 0) by (nonlinear_arith)
        requires
            a >= 0,
            w >= 0,
    ;
}

/// The voxel after a voxel has the next place in row-major order.
pub proof fn lemma_row_major_successor(shape: Idx3d, p: Idx3d)
    requires
        within(shape, p),
    ensures
        row_major(shape, successor(shape, p)) == row_major(shape, p) + 1,
{
    let (h, w) = (shape.1 as int, shape.2 as int);
    let a = p.0 * h + p.1;
    if p.2 + 1 < shape.2 {
    } else if p.1 + 1 < shape.1 {
        assert((a + 1) * w == a * w + w) by (nonlinear_arith);
    } else {
        assert((p.0 + 1) * h == p.0 * h + h) by (nonlinear_arith);
        assert((a + 1) * w == a * w + w) by (nonlinear_arith);
    }
}

impl CtLabel {
    /// The number of voxels that hold `label`.
    pub fn count(&self, label: u8) -> (r: usize)
        ensures
            self@.labelled(label).finite(),
            r == self@.labelled(label).len(),
    {
        let ghost vol = self@;
        let (zs, hs, ws) = self.shape();
        let mut cnt: usize = 0;
        let ghost mut seen: Set<Idx3d> = Set::empty();
        if zs == 0 || hs == 0 || ws == 0 {
            proof {
                assert(vol.labelled(label) =~= seen);
            }
            return cnt;
        }
        let mut pos: Idx3d = (0, 0, 0);
        while pos.0 < zs
            invariant
                vol == self@,
                vol.wf(),
                vol.shape == (zs, hs, ws),
                hs > 0,
                ws > 0,
                vol.has(pos) || pos == (zs, 0usize, 0usize),
                seen.finite(),
                cnt == seen.len(),
                vol.has(pos) ==> cnt <= row_major(vol.shape, pos),
                forall|p: Idx3d| #[trigger]
                    seen.contains(p) <==> vol.labelled(label).contains(p) && pos_lt(p, pos),
            decreases zs - pos.0, hs - pos.1, ws - pos.2,
        {
            proof {
                lemma_row_major_bound(vol.shape, pos);
                lemma_row_major_successor(vol.shape, pos);
                assert forall|p: Idx3d| vol.has(p) implies (pos_lt(p, successor(vol.shape, pos))
                    <==> pos_lt(p, pos) || p == pos) by {
                    lemma_successor(vol, pos, p);
                }
            }
            match self.get(pos) {
                Some(found) => {
                    if found == label {
                        cnt += 1;
                        proof {
                            seen = seen.insert(pos);
                        }
                    }
                },
                None => {},
            }
            if pos.2 + 1 < ws {
                pos = (pos.0, pos.1, pos.2 + 1);
            } else if pos.1 + 1 < hs {
                pos = (pos.0, pos.1 + 1, 0);
            } else {
                pos = (pos.0 + 1, 0, 0);
            }
        }
        proof {
            assert forall|p: Idx3d| vol.has(p) implies pos_lt(p, pos) by {}
            assert(vol.labelled(label) =~= seen);
        }
        cnt
    }

    /// The numbers of voxels that hold background, liver and tumor.
    pub fn numeric_statistics(&self) -> (r: [usize; 3])
        ensures
            r[0] == self@.labelled(0).len(),
            r[1] == self@.labelled(1).len(),
            r[2] == self@.labelled(2).len(),
    {
        [self.count(0), self.count(1), self.count(2)]
    }

    /// The voxels whose label meets `pred`, in row-major order.
    pub fn filter_pos<F: Fn(u8) -> bool>(&self, pred: F) -> (r: Vec<Idx3d>)
        requires
            forall|x: u8| #[trigger] pred.requires((x,)),
        ensures
            ascending(r@),
            forall|p: Idx3d| #[trigger]
                r@.contains(p) ==> self@.has(p) && pred.ensures((self@.labels[p],), true),
            forall|p: Idx3d|
                self@.has(p) && !r@.contains(p) ==> #[trigger] pred.ensures(
                    (self@.labels[p],),
                    false,
                ),
    {
        let ghost vol = self@;
        let (zs, hs, ws) = self.shape();
        let mut out: Vec<Idx3d> = Vec::new();
        if zs == 0 || hs == 0 || ws == 0 {
            return out;
        }
        let mut pos: Idx3d = (0, 0, 0);
        while pos.0 < zs
            invariant
                vol == self@,
                vol.wf(),
                vol.shape == (zs, hs, ws),
                hs > 0,
                ws > 0,
                vol.has(pos) || pos == (zs, 0usize, 0usize),
                forall|x: u8| #[trigger] pred.requires((x,)),
                ascending(out@),
                forall|p: Idx3d| #[trigger]
                    out@.contains(p) ==> vol.has(p) && pos_lt(p, pos) && pred.ensures(
                        (vol.labels[p],),
                        true,
                    ),
                forall|p: Idx3d|
                    vol.has(p) && pos_lt(p, pos) && !out@.contains(p) ==> #[trigger] pred.ensures(
                        (vol.labels[p],),
                        false,
                    ),
            decreases zs - pos.0, hs - pos.1, ws - pos.2,
        {
            let ghost before = out@;
            proof {
                assert forall|p: Idx3d| vol.has(p) implies (pos_lt(p, successor(vol.shape, pos))
                    <==> pos_lt(p, pos) || p == pos) by {
                    lemma_successor(vol, pos, p);
                }
            }
            match self.get(pos) {
                Some(found) => {
                    if pred(found) {
                        out.push(pos);
                        proof {
                            assert forall|p: Idx3d| #[trigger]
                                out@.contains(p) <==> before.contains(p) || p == pos by {
                                if before.contains(p) {
                                    let j = choose|j: int| 0 <= j < before.len() && before[j] == p;
                                    assert(out@[j] == p);
                                }
                                if p == pos {
                                    assert(out@[before.len() as int] == p);
                                }
                                if out@.contains(p) && p != pos {
                                    let j = choose|j: int| 0 <= j < out@.len() && out@[j] == p;
                                    assert(before[j] == p);
                                }
                            }
                            assert forall|i: int, j: int| 0 <= i < j < out@.len() implies pos_lt(
                                out@[i],
                                out@[j],
                            ) by {
                                assert(before.contains(out@[i]));
                                if j < before.len() {
                                    assert(pos_lt(before[i], before[j]));
                                }
                            }
                        }
                    }
                },
                None => {},
            }
            if pos.2 + 1 < ws {
                pos = (pos.0, pos.1, pos.2 + 1);
            } else if pos.1 + 1 < hs {
                pos = (pos.0, pos.1 + 1, 0);
            } else {
                pos = (pos.0 + 1, 0, 0);
            }
        }
        proof {
            assert forall|p: Idx3d| vol.has(p) implies pos_lt(p, pos) by {}
        }
        out
    }

    /// The voxels that hold liver or tumor, in row-major order.
    #[inline]
    pub fn liver_tumor_pos(&self) -> (r: Vec<Idx3d>)
        ensures
            ascending(r@),
            forall|p: Idx3d| #[trigger] r@.contains(p) <==> self@.fg(p),
    {
        let r = self.filter_pos(is_liver_or_tumor);
        proof {
            assert forall|p: Idx3d| #[trigger] r@.contains(p) <==> self@.fg(p) by {
                if self@.has(p) && !r@.contains(p) {
                    assert(is_liver_or_tumor.ensures((self@.labels[p],), false));
                }
            }
        }
        r
    }

    /// The voxels that hold liver, in row-major order.
    #[inline]
    pub fn liver_pos(&self) -> (r: Vec<Idx3d>)
        ensures
            ascending(r@),
            forall|p: Idx3d| #[trigger] r@.contains(p) <==> self@.labelled(LITS_LIVER).contains(p),
    {
        let r = self.filter_pos(is_liver);
        proof {
            assert forall|p: Idx3d| #[trigger]
                r@.contains(p) <==> self@.labelled(LITS_LIVER).contains(p) by {
                if self@.has(p) && !r@.contains(p) {
                    assert(is_liver.ensures((self@.labels[p],), false));
                }
            }
        }
        r
    }

    /// The voxels that hold tumor, in row-major order.
    #[inline]
    pub fn tumor_pos(&self) -> (r: Vec<Idx3d>)
        ensures
            ascending(r@),
            forall|p: Idx3d| #[trigger] r@.contains(p) <==> self@.labelled(LITS_TUMOR).contains(p),
    {
        let r = self.filter_pos(is_tumor);
        proof {
            assert forall|p: Idx3d| #[trigger]
                r@.contains(p) <==> self@.labelled(LITS_TUMOR).contains(p) by {
                if self@.has(p) && !r@.contains(p) {
                    assert(is_tumor.ensures((self@.labels[p],), false));
                }
            }
        }
        r
    }
}

} // verus!
