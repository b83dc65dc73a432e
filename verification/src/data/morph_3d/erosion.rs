//! The peeling of the foreground of a volume, round by round, as a function
//! of the volume alone.
//!
//! A round takes off the candidates of the frontier: all of them in a full
//! round, and in a restricted round those that are not shielded along the
//! finer axis.  The voxels that a round lays bare make the next frontier.
//! The rounds end with the one that takes off all that is left; the first
//! voxel taken off by it is the centre.
use crate::Idx3d;
use crate::consts::ElemType;
use crate::data::Volume;
use crate::data::geometry::adjacent;
use crate::data::geometry::adjacent_hw;
use crate::data::geometry::adjacent_z;
use crate::data::geometry::least;
use crate::data::geometry::pos_lt;
use crate::data::morph_3d::phantom::Memento;
use vstd::prelude::*;
use vstd::set_lib::lemma_len_subset;
use vstd::set_lib::lemma_set_difference_len;

verus! {

/// The pace at which the surface retreats: every round adds `step` to a
/// running length, and a round is full when that length reaches `barrier`.
pub struct Schedule {
    /// Size of a voxel along the finer axis.
    pub step: int,
    /// Size of a voxel along the coarser axis.
    pub barrier: int,
    /// Whether the finer axis is the slice axis.
    pub along_z: bool,
}

/// How a peeling ended.
pub struct Peeling {
    /// The first voxel of the last round.
    pub center: Idx3d,
    /// The number of voxels taken off before the last round.
    pub eroded: nat,
    /// The voxels taken off by the last round.
    pub last: Set<Idx3d>,
}

impl Volume {
    /// The foreground voxels that touch the background.
    pub open spec fn surface(self) -> Set<Idx3d> {
        Set::new(|p: Idx3d| self.fg(p) && exists|q: Idx3d| adjacent(p, q) && self.bg(q))
    }

    /// Whether all neighbours of `p` along the finer axis are still there.
    pub open spec fn shielded(self, remaining: Set<Idx3d>, p: Idx3d, along_z: bool) -> bool {
        forall|q: Idx3d|
            self.has(q) && (if along_z {
                adjacent_z(p, q)
            } else {
                adjacent_hw(p, q)
            }) ==> remaining.contains(q)
    }

    /// The voxels that a round takes off.
    pub open spec fn peeled(
        self,
        remaining: Set<Idx3d>,
        frontier: Set<Idx3d>,
        full: bool,
        along_z: bool,
    ) -> Set<Idx3d> {
        Set::new(
            |p: Idx3d| frontier.contains(p) && (full || !self.shielded(remaining, p, along_z)),
        )
    }

    /// The frontier after a round that took off `gone`: the candidates that
    /// stayed, and the voxels that lost a neighbour.
    pub open spec fn exposed(remaining: Set<Idx3d>, frontier: Set<Idx3d>, gone: Set<Idx3d>) -> Set<
        Idx3d,
    > {
        Set::new(
            |p: Idx3d|
                remaining.contains(p) && !gone.contains(p) && (frontier.contains(p) || exists|
                    q: Idx3d,
                |
                    gone.contains(q) && adjacent(q, p)),
        )
    }

    /// What holds of the state before every round: the frontier is part of
    /// what is left, which is a finite part of the foreground; every voxel
    /// next to a voxel of the volume that is gone is a candidate; and the
    /// running length lies below the barrier.
    pub open spec fn sound(
        self,
        remaining: Set<Idx3d>,
        frontier: Set<Idx3d>,
        cur: int,
        s: Schedule,
    ) -> bool {
        &&& remaining.finite()
        &&& frontier.subset_of(remaining)
        &&& remaining.subset_of(self.foreground())
        &&& forall|p: Idx3d, q: Idx3d|
            remaining.contains(p) && self.has(q) && adjacent(p, q) && !remaining.contains(q)
                ==> frontier.contains(p)
        &&& 0 < s.step <= s.barrier
        &&& 0 <= cur < s.barrier
    }

    /// The outcome of the rounds that start from the given state, or `None`
    /// when a full round finds nothing to take off.
    pub open spec fn peel(
        self,
        remaining: Set<Idx3d>,
        frontier: Set<Idx3d>,
        cur: int,
        s: Schedule,
    ) -> Option<Peeling>
        decreases remaining.len(), s.barrier - cur,
        when remaining.finite() && frontier.subset_of(remaining) && 0 < s.step && 0 <= cur
            < s.barrier
        via Self::peel_decreases
    {
        let reached = cur + s.step;
        let full = reached >= s.barrier;
        let gone = self.peeled(remaining, frontier, full, s.along_z);
        if gone.len() == remaining.len() {
            Some(Peeling { center: least(gone), eroded: 0, last: gone })
        } else if full && gone.len() == 0 {
            None
        } else {
            match self.peel(
                remaining.difference(gone),
                Self::exposed(remaining, frontier, gone),
                if full {
                    reached - s.barrier
                } else {
                    reached
                },
                s,
            ) {
                Some(rest) => Some(Peeling { eroded: rest.eroded + gone.len(), ..rest }),
                None => None,
            }
        }
    }

    #[via_fn]
    proof fn peel_decreases(
        self,
        remaining: Set<Idx3d>,
        frontier: Set<Idx3d>,
        cur: int,
        s: Schedule,
    ) {
        let reached = cur + s.step;
        let full = reached >= s.barrier;
        let gone = self.peeled(remaining, frontier, full, s.along_z);
        lemma_round_counts(remaining, gone);
    }

    /// What the records hold once the voxels before `upto` have been looked
    /// at: the class of each foreground voxel among them and of the
    /// background around it, and those of them that lie on the surface.
    pub open spec fn scanned(self, m: Memento, upto: Idx3d) -> bool {
        &&& m.visited =~= Set::<Idx3d>::empty()
        &&& m.pending =~= Set::<Idx3d>::empty()
        &&& forall|p: Idx3d|
            #![trigger m.classes.dom().contains(p)]
            #![trigger self.fg(p)]
            self.fg(p) && pos_lt(p, upto) ==> m.classes.dom().contains(p) && m.classes[p]
                == ElemType::Foreground
        &&& forall|p: Idx3d, q: Idx3d|
            #![trigger adjacent(q, p)]
            self.fg(q) && pos_lt(q, upto) && adjacent(q, p) && self.bg(p)
                ==> m.classes.dom().contains(p) && m.classes[p] == ElemType::Background
        &&& forall|p: Idx3d|
            #![trigger m.current.contains(p)]
            #![trigger self.surface().contains(p)]
            m.current.contains(p) <==> pos_lt(p, upto) && self.surface().contains(p)
    }

    /// Whether the classes on record tell, for every voxel of or next to
    /// the foreground, whether it is left.
    pub open spec fn classified(self, classes: Map<Idx3d, ElemType>, remaining: Set<Idx3d>) -> bool {
        &&& forall|p: Idx3d|
            #![trigger classes.dom().contains(p)]
            #![trigger self.fg(p)]
            self.fg(p) ==> classes.dom().contains(p) && (classes[p] == ElemType::Foreground
                <==> remaining.contains(p))
        &&& forall|p: Idx3d, q: Idx3d|
            #![trigger adjacent(q, p)]
            self.fg(q) && self.has(p) && adjacent(q, p) ==> classes.dom().contains(p) && (
            classes[p] == ElemType::Foreground <==> remaining.contains(p))
    }

    /// Whether the voxels on record as peeled off are the foreground that is gone.
    pub open spec fn peeled_off(self, visited: Set<Idx3d>, remaining: Set<Idx3d>) -> bool {
        forall|p: Idx3d|
            #![trigger visited.contains(p)]
            #![trigger self.fg(p)]
            #![trigger remaining.contains(p)]
            visited.contains(p) <==> self.fg(p) && !remaining.contains(p)
    }

    /// How the records stand for the state before a round: the voxels
    /// peeled off are the foreground that is gone, the class on record for a
    /// voxel of or next to the foreground tells whether it is left, the
    /// candidates on record are foreground and those of them that are left
    /// make the frontier, and nothing is noted for the next round.
    pub open spec fn tracks(
        self,
        m: Memento,
        remaining: Set<Idx3d>,
        frontier: Set<Idx3d>,
    ) -> bool {
        &&& self.peeled_off(m.visited, remaining)
        &&& self.classified(m.classes, remaining)
        &&& forall|p: Idx3d| #[trigger] m.current.contains(p) ==> self.fg(p)
        &&& forall|p: Idx3d|
            #![trigger frontier.contains(p)]
            #![trigger m.current.contains(p)]
            frontier.contains(p) <==> m.current.contains(p) && remaining.contains(p)
        &&& m.pending =~= Set::<Idx3d>::empty()
    }

    /// The pace of the rounds: that of the voxel's sizes when they are to
    /// count and differ, and one full round after the other otherwise.
    pub open spec fn schedule(self, anisotropic: bool) -> Schedule {
        if anisotropic && self.height_um > self.z_um {
            Schedule { step: self.z_um as int, barrier: self.height_um as int, along_z: true }
        } else if anisotropic && self.z_um > self.height_um {
            Schedule { step: self.height_um as int, barrier: self.z_um as int, along_z: false }
        } else {
            Schedule { step: 1, barrier: 1, along_z: true }
        }
    }

    /// The peeling of the whole foreground, if there is any foreground and
    /// the peeling comes to an end.
    pub open spec fn erosion(self, anisotropic: bool) -> Option<Peeling> {
        if forall|p: Idx3d| !self.fg(p) {
            None
        } else {
            self.peel(self.foreground(), self.surface(), 0, self.schedule(anisotropic))
        }
    }

    /// The morphological centre of the foreground.
    pub open spec fn center(self, anisotropic: bool) -> Option<Idx3d> {
        match self.erosion(anisotropic) {
            Some(peeling) => Some(peeling.center),
            None => None,
        }
    }
}

/// All holds of the state before the first round that is to hold before every round.
pub proof fn lemma_sound_start(vol: Volume, s: Schedule)
    requires
        vol.foreground().finite(),
        0 < s.step <= s.barrier,
    ensures
        vol.sound(vol.foreground(), vol.surface(), 0, s),
{
    assert forall|p: Idx3d, q: Idx3d|
        vol.foreground().contains(p) && vol.has(q) && adjacent(p, q)
            && !vol.foreground().contains(q) implies vol.surface().contains(p) by {
        assert(vol.bg(q));
    }
}

/// The outcome of a peeling that `before` voxels were taken off ahead of.
pub open spec fn after_eroding(outcome: Option<Peeling>, before: nat) -> Option<Peeling> {
    match outcome {
        Some(rest) => Some(Peeling { eroded: rest.eroded + before, ..rest }),
        None => None,
    }
}

/// A round that does not end the peeling leaves a state of which all holds
/// that held of the state before it.
pub proof fn lemma_sound_step(
    vol: Volume,
    remaining: Set<Idx3d>,
    frontier: Set<Idx3d>,
    cur: int,
    s: Schedule,
)
    requires
        vol.sound(remaining, frontier, cur, s),
    ensures
        ({
            let reached = cur + s.step;
            let full = reached >= s.barrier;
            let gone = vol.peeled(remaining, frontier, full, s.along_z);
            &&& gone.subset_of(remaining)
            &&& gone.finite()
            &&& remaining.difference(gone).len() + gone.len() == remaining.len()
            &&& vol.sound(
                remaining.difference(gone),
                Volume::exposed(remaining, frontier, gone),
                if full {
                    reached - s.barrier
                } else {
                    reached
                },
                s,
            )
        }),
{
    let reached = cur + s.step;
    let full = reached >= s.barrier;
    let gone = vol.peeled(remaining, frontier, full, s.along_z);
    let left = remaining.difference(gone);
    let bare = Volume::exposed(remaining, frontier, gone);
    lemma_round_counts(remaining, gone);
    assert forall|p: Idx3d, q: Idx3d|
        left.contains(p) && vol.has(q) && adjacent(p, q) && !left.contains(
            q,
        ) implies bare.contains(p) by {
        if remaining.contains(q) {
            assert(gone.contains(q) && adjacent(q, p));
        } else {
            assert(frontier.contains(p));
        }
    }
}

/// Taking a part off a finite set leaves as many members as the part had fewer.
pub proof fn lemma_round_counts(remaining: Set<Idx3d>, gone: Set<Idx3d>)
    requires
        remaining.finite(),
        gone.subset_of(remaining),
    ensures
        gone.finite(),
        remaining.difference(gone).finite(),
        remaining.difference(gone).len() + gone.len() == remaining.len(),
{
    lemma_len_subset(gone, remaining);
    lemma_set_difference_len(remaining, gone);
    assert(remaining.intersect(gone) =~= gone);
}

} // verus!
