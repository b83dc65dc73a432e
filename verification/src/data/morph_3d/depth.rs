//! The peeling by one voxel a round, told by distances: a round takes off
//! the voxels that lie as many steps from the background as rounds have
//! passed, and the centre is the first of the voxels that lie farthest
//! from the background.
use crate::Idx3d;
use crate::data::Volume;
use crate::data::geometry::adjacent;
use crate::data::geometry::is_least;
use crate::data::geometry::pos_lt;
use crate::data::morph_3d::erosion::Schedule;
use crate::data::morph_3d::erosion::after_eroding;
use crate::data::morph_3d::erosion::lemma_sound_step;
use crate::data::morph_3d::laws::lemma_least_exists;
use crate::data::morph_3d::laws::lemma_start;
use crate::data::morph_3d::roi::lemma_toward;
use crate::data::morph_3d::roi::steps;
use crate::data::morph_3d::roi::toward;
use vstd::prelude::*;

verus! {

impl Volume {
    /// Whether some voxel of the volume that is not foreground lies within
    /// `k` steps of `p`.
    pub open spec fn near_background(self, p: Idx3d, k: int) -> bool {
        exists|b: Idx3d| self.bg(b) && steps(p, b) <= k
    }

    /// The foreground voxels that lie more than `k` steps from the background.
    pub open spec fn deeper(self, k: int) -> Set<Idx3d> {
        Set::new(|p: Idx3d| self.fg(p) && !self.near_background(p, k))
    }

    /// The foreground voxels that lie `k` steps from the background.
    pub open spec fn layer(self, k: int) -> Set<Idx3d> {
        Set::new(
            |p: Idx3d|
                self.fg(p) && !self.near_background(p, k - 1) && self.near_background(p, k),
        )
    }

    /// Whether `c` is the first of the foreground voxels that lie farthest
    /// from the background, which is `k` steps.
    pub open spec fn is_farthest(self, c: Idx3d, k: int) -> bool {
        &&& self.fg(c)
        &&& !self.near_background(c, k - 1)
        &&& forall|p: Idx3d| self.fg(p) ==> self.near_background(p, k)
        &&& forall|p: Idx3d| self.fg(p) && !self.near_background(p, k - 1) ==> !pos_lt(p, c)
    }
}

/// The schedule of the peeling by one voxel a round.
pub open spec fn every_round_full() -> Schedule {
    Schedule { step: 1, barrier: 1, along_z: true }
}

/// Two voxels are one step apart exactly when they are neighbours.
pub proof fn lemma_one_step(p: Idx3d, q: Idx3d)
    ensures
        steps(p, q) == 1 <==> adjacent(p, q),
        steps(p, q) == 0 <==> p == q,
        steps(p, q) >= 0,
        steps(p, q) == steps(q, p),
{
}

/// The way over a third voxel is no shorter.
pub proof fn lemma_detour(p: Idx3d, q: Idx3d, b: Idx3d)
    ensures
        steps(p, b) <= steps(p, q) + steps(q, b),
{
}

/// Being near the background carries over to wider distances and to neighbours.
pub proof fn lemma_near_grows(vol: Volume, p: Idx3d, q: Idx3d, k: int)
    requires
        vol.near_background(p, k),
    ensures
        vol.near_background(p, k + 1),
        adjacent(p, q) ==> vol.near_background(q, k + 1),
{
    let b = choose|b: Idx3d| vol.bg(b) && steps(p, b) <= k;
    lemma_detour(q, p, b);
    lemma_one_step(q, p);
    assert(vol.bg(b) && steps(p, b) <= k + 1);
    if adjacent(p, q) {
        assert(vol.bg(b) && steps(q, b) <= k + 1);
    }
}

/// The surface is the layer one step from the background.
pub proof fn lemma_first_layer(vol: Volume)
    ensures
        vol.surface() == vol.layer(1),
        vol.foreground() == vol.deeper(0),
{
    assert forall|p: Idx3d| vol.surface().contains(p) <==> vol.layer(1).contains(p) by {
        if vol.surface().contains(p) {
            let q = choose|q: Idx3d| adjacent(p, q) && vol.bg(q);
            lemma_one_step(p, q);
            assert(vol.bg(q) && steps(p, q) <= 1);
            if vol.near_background(p, 0) {
                let b = choose|b: Idx3d| vol.bg(b) && steps(p, b) <= 0;
                lemma_one_step(p, b);
            }
        }
        if vol.layer(1).contains(p) {
            let b = choose|b: Idx3d| vol.bg(b) && steps(p, b) <= 1;
            lemma_one_step(p, b);
            assert(adjacent(p, b) && vol.bg(b));
        }
    }
    assert(vol.surface() =~= vol.layer(1));
    assert forall|p: Idx3d| vol.foreground().contains(p) <==> vol.deeper(0).contains(p) by {
        if vol.fg(p) && vol.near_background(p, 0) {
            let b = choose|b: Idx3d| vol.bg(b) && steps(p, b) <= 0;
            lemma_one_step(p, b);
        }
    }
    assert(vol.foreground() =~= vol.deeper(0));
}

/// A full round takes a layer off: what is left lies deeper, and the next
/// layer is laid bare.
pub proof fn lemma_next_layer(vol: Volume, k: int)
    requires
        k >= 0,
    ensures
        vol.deeper(k).difference(vol.layer(k + 1)) == vol.deeper(k + 1),
        Volume::exposed(vol.deeper(k), vol.layer(k + 1), vol.layer(k + 1)) == vol.layer(k + 2),
        vol.peeled(vol.deeper(k), vol.layer(k + 1), true, true) == vol.layer(k + 1),
{
    let left = vol.deeper(k).difference(vol.layer(k + 1));
    assert forall|p: Idx3d| left.contains(p) <==> vol.deeper(k + 1).contains(p) by {
        if vol.deeper(k + 1).contains(p) && vol.near_background(p, k) {
            lemma_near_grows(vol, p, p, k);
        }
    }
    assert(left =~= vol.deeper(k + 1));
    let bare = Volume::exposed(vol.deeper(k), vol.layer(k + 1), vol.layer(k + 1));
    assert forall|p: Idx3d| bare.contains(p) <==> vol.layer(k + 2).contains(p) by {
        if bare.contains(p) {
            let q = choose|q: Idx3d| vol.layer(k + 1).contains(q) && adjacent(q, p);
            lemma_near_grows(vol, q, p, k + 1);
        }
        if vol.layer(k + 2).contains(p) {
            let b = choose|b: Idx3d| vol.bg(b) && steps(p, b) <= k + 2;
            assert(!(vol.bg(b) && steps(p, b) <= k + 1));
            lemma_one_step(p, b);
            let t = toward(b, p);
            lemma_toward(vol, b, false, p);
            lemma_one_step(t, p);
            assert(vol.bg(b) && steps(t, b) <= k + 1);
            assert(vol.near_background(t, k + 1));
            if !vol.fg(t) {
                assert(vol.bg(t) && steps(p, t) <= k + 1);
            }
            if vol.near_background(t, k) {
                lemma_near_grows(vol, t, p, k);
            }
            if vol.near_background(p, k) {
                lemma_near_grows(vol, p, p, k);
            }
            assert(vol.layer(k + 1).contains(t) && adjacent(t, p));
        }
    }
    assert(bare =~= vol.layer(k + 2));
    assert(vol.peeled(vol.deeper(k), vol.layer(k + 1), true, true) =~= vol.layer(k + 1));
}

/// The peeling by one voxel a round ends with the layer that lies farthest
/// from the background.
pub proof fn lemma_layers(vol: Volume, k: int)
    requires
        k >= 0,
        vol.sound(vol.deeper(k), vol.layer(k + 1), 0, every_round_full()),
        vol.deeper(k).len() > 0,
    ensures
        vol.peel(vol.deeper(k), vol.layer(k + 1), 0, every_round_full()) matches Some(o)
            ==> exists|last: int| #[trigger]
            vol.is_farthest(o.center, last),
    decreases vol.deeper(k).len(),
{
    let s = every_round_full();
    let remaining = vol.deeper(k);
    let frontier = vol.layer(k + 1);
    lemma_next_layer(vol, k);
    lemma_sound_step(vol, remaining, frontier, 0, s);
    let gone = vol.peeled(remaining, frontier, true, true);
    let whole = vol.peel(remaining, frontier, 0, s);
    if gone.len() == remaining.len() {
        assert(vol.deeper(k + 1).len() == 0);
        assert(vol.deeper(k + 1).is_empty());
        lemma_least_exists(gone);
        let c = whole->0.center;
        assert(is_least(frontier, c));
        assert forall|p: Idx3d| vol.fg(p) implies vol.near_background(p, k + 1) by {
            if !vol.near_background(p, k + 1) {
                assert(vol.deeper(k + 1).contains(p));
            }
        }
        assert forall|p: Idx3d| vol.fg(p) && !vol.near_background(p, k) implies !pos_lt(
            p,
            c,
        ) by {
            assert(frontier.contains(p));
        }
        assert(vol.is_farthest(c, k + 1));
    } else if gone.len() == 0 {
        assert(whole is None);
    } else {
        let rest = vol.peel(vol.deeper(k + 1), vol.layer(k + 2), 0, s);
        assert(whole == after_eroding(rest, gone.len()));
        lemma_layers(vol, k + 1);
        if rest is Some {
            let last = choose|last: int| #[trigger] vol.is_farthest(rest->0.center, last);
            assert(vol.is_farthest(whole->0.center, last));
        }
    }
}

/// The centre of the peeling by one voxel a round is the first, in the
/// order of indices, of the foreground voxels that lie farthest from the
/// background, counted in steps along the axes.
pub proof fn lemma_center_is_farthest(vol: Volume)
    requires
        vol.wf(),
    ensures
        vol.center(false) matches Some(c) ==> exists|last: int| #[trigger] vol.is_farthest(c, last),
{
    if vol.center(false) is Some {
        lemma_first_layer(vol);
        lemma_start(vol, false);
        assert(vol.schedule(false) == every_round_full());
        let p = choose|p: Idx3d| vol.fg(p);
        assert(vol.foreground().contains(p));
        let whole = vol.peel(vol.deeper(0), vol.layer(1), 0, every_round_full());
        assert(vol.erosion(false) == whole);
        lemma_layers(vol, 0);
        let last = choose|last: int| #[trigger] vol.is_farthest(whole->0.center, last);
        assert(vol.is_farthest(vol.center(false)->0, last));
    }
}

} // verus!
