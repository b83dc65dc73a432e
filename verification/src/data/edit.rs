//! Changing the labels of a volume.
use crate::consts::gray::LITS_BACKGROUND;
use crate::data::census::lemma_row_major_bound;
use crate::data::census::lemma_row_major_successor;
use crate::data::geometry::pos_lt;
use crate::data::grid::row_major;
use crate::data::morph_3d::lemma_successor;
use crate::data::morph_3d::successor;
use crate::data::CtLabel;
use crate::data::Volume;
use crate::Idx3d;
use vstd::prelude::*;

verus! {

impl Volume {
    /// Whether `p` lies on one of the six faces of the volume.
    pub open spec fn on_face(self, p: Idx3d) -> bool {
        self.has(p) && (p.0 == 0 || p.0 + 1 == self.shape.0 || p.1 == 0 || p.1 + 1 == self.shape.1
            || p.2 == 0 || p.2 + 1 == self.shape.2)
    }

    /// The volume with every label `from` turned into `to`.
    pub open spec fn replaced(self, from: u8, to: u8) -> Volume {
        Volume {
            labels: Map::new(
                |p: Idx3d| self.has(p),
                |p: Idx3d|
                    if self.labels[p] == from {
                        to
                    } else {
                        self.labels[p]
                    },
            ),
            ..self
        }
    }

    /// The volume with background on its six faces.
    pub open spec fn with_background_faces(self) -> Volume {
        Volume {
            labels: Map::new(
                |p: Idx3d| self.has(p),
                |p: Idx3d|
                    if self.on_face(p) {
                        LITS_BACKGROUND
                    } else {
                        self.labels[p]
                    },
            ),
            ..self
        }
    }

    /// The volume that has the labels of `done` on the voxels before `upto`
    /// and its own on the others.
    pub open spec fn partly(self, done: Volume, upto: Idx3d) -> Volume {
        Volume {
            labels: Map::new(
                |p: Idx3d| self.has(p),
                |p: Idx3d|
                    if pos_lt(p, upto) {
                        done.labels[p]
                    } else {
                        self.labels[p]
                    },
            ),
            ..self
        }
    }
}

/// A volume with background on its six faces holds no foreground in the
/// first or last row or column of a slice.
pub proof fn lemma_faces_frame(vol: Volume)
    ensures
        vol.with_background_faces().framed(),
{
    let framed = vol.with_background_faces();
    assert forall|p: Idx3d| #[trigger] framed.fg(p) implies 0 < p.1 && p.1 + 1 < framed.shape.1
        && 0 < p.2 && p.2 + 1 < framed.shape.2 by {
        if vol.on_face(p) {
            assert(framed.labels[p] == LITS_BACKGROUND);
        }
    }
}

impl CtLabel {
    /// Turns every label `from` into `to`.  Returns the number of voxels
    /// that held `from`.
    pub fn replace(&mut self, from: u8, to: u8) -> (r: usize)
        ensures
            final(self)@ == old(self)@.replaced(from, to),
            old(self)@.labelled(from).finite(),
            r == old(self)@.labelled(from).len(),
    {
        let ghost before = self@;
        let ghost after = before.replaced(from, to);
        let (zs, hs, ws) = self.shape();
        let mut cnt: usize = 0;
        let ghost mut seen: Set<Idx3d> = Set::empty();
        if zs == 0 || hs == 0 || ws == 0 {
            proof {
                assert(before.labelled(from) =~= seen);
                assert(self@.labels =~= after.labels);
            }
            return cnt;
        }
        let mut pos: Idx3d = (0, 0, 0);
        proof {
            assert(self@.labels =~= before.partly(after, pos).labels);
        }
        while pos.0 < zs
            invariant
                before.wf(),
                before.shape == (zs, hs, ws),
                after == before.replaced(from, to),
                hs > 0,
                ws > 0,
                before.has(pos) || pos == (zs, 0usize, 0usize),
                self@ == before.partly(after, pos),
                seen.finite(),
                cnt == seen.len(),
                before.has(pos) ==> cnt <= row_major(before.shape, pos),
                forall|p: Idx3d| #[trigger]
                    seen.contains(p) <==> before.labelled(from).contains(p) && pos_lt(p, pos),
            decreases zs - pos.0, hs - pos.1, ws - pos.2,
        {
            let ghost here = self@;
            proof {
                lemma_row_major_bound(before.shape, pos);
                lemma_row_major_successor(before.shape, pos);
                assert forall|p: Idx3d| before.has(p) implies (pos_lt(
                    p,
                    successor(before.shape, pos),
                ) <==> pos_lt(p, pos) || p == pos) by {
                    lemma_successor(before, pos, p);
                }
            }
            match self.get(pos) {
                Some(found) => {
                    if found == from {
                        cnt += 1;
                        self.set(pos, to);
                        proof {
                            seen = seen.insert(pos);
                        }
                    }
                },
                None => {},
            }
            proof {
                assert(self@.labels =~= before.partly(
                    after,
                    successor(before.shape, pos),
                ).labels);
            }
            if pos.2 + 1 < ws {
                pos = (pos.0, pos.1, pos.2 + 1);
            } else if pos.1 + 1 < hs {
                pos = (pos.0, pos.1 + 1, 0);
            } else {
                pos = (pos.0 + 1, 0, 0);
            }
        }
        proof {
            assert forall|p: Idx3d| before.has(p) implies pos_lt(p, pos) by {}
            assert(before.labelled(from) =~= seen);
            assert(self@.labels =~= after.labels);
        }
        cnt
    }

    /// Puts background on the six faces of the volume.
    pub fn make_background_surface6(&mut self)
        ensures
            final(self)@ == old(self)@.with_background_faces(),
            final(self)@.framed(),
    {
        let ghost before = self@;
        let ghost after = before.with_background_faces();
        let (zs, hs, ws) = self.shape();
        proof {
            lemma_faces_frame(before);
        }
        if zs == 0 || hs == 0 || ws == 0 {
            proof {
                assert(self@.labels =~= after.labels);
            }
            return ;
        }
        let mut pos: Idx3d = (0, 0, 0);
        proof {
            assert(self@.labels =~= before.partly(after, pos).labels);
        }
        while pos.0 < zs
            invariant
                before.wf(),
                before.shape == (zs, hs, ws),
                after == before.with_background_faces(),
                hs > 0,
                ws > 0,
                before.has(pos) || pos == (zs, 0usize, 0usize),
                self@ == before.partly(after, pos),
            decreases zs - pos.0, hs - pos.1, ws - pos.2,
        {
            proof {
                assert forall|p: Idx3d| before.has(p) implies (pos_lt(
                    p,
                    successor(before.shape, pos),
                ) <==> pos_lt(p, pos) || p == pos) by {
                    lemma_successor(before, pos, p);
                }
            }
            if pos.0 == 0 || pos.0 + 1 == zs || pos.1 == 0 || pos.1 + 1 == hs || pos.2 == 0
                || pos.2 + 1 == ws {
                self.set(pos, LITS_BACKGROUND);
            }
            proof {
                assert(self@.labels =~= before.partly(
                    after,
                    successor(before.shape, pos),
                ).labels);
            }
            if pos.2 + 1 < ws {
                pos = (pos.0, pos.1, pos.2 + 1);
            } else if pos.1 + 1 < hs {
                pos = (pos.0, pos.1 + 1, 0);
            } else {
                pos = (pos.0 + 1, 0, 0);
            }
        }
        proof {
            assert forall|p: Idx3d| before.has(p) implies pos_lt(p, pos) by {}
            assert(self@.labels =~= after.labels);
        }
    }
}

} // verus!
