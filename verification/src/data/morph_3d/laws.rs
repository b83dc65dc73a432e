//! What holds of every peeling and of every region.
use crate::Idx2d;
use crate::Idx3d;
use crate::data::Volume;
use crate::data::geometry::adjacent;
use crate::data::geometry::is_least;
use crate::data::geometry::least;
use crate::data::geometry::pos_lt;
use crate::data::morph_3d::erosion::Schedule;
use crate::data::morph_3d::erosion::lemma_sound_start;
use crate::data::morph_3d::erosion::lemma_sound_step;
use crate::data::morph_3d::roi::lemma_dist2_parts;
use crate::data::morph_3d::roi::lemma_grid_finite;
use crate::data::morph_3d::roi::lemma_toward;
use crate::data::morph_3d::roi::sq;
use crate::data::morph_3d::roi::steps;
use crate::data::morph_3d::roi::toward;
use vstd::prelude::*;
use vstd::set_lib::lemma_len_subset;

verus! {

/// Every finite set of voxels that is not empty has a first voxel.
pub proof fn lemma_least_exists(s: Set<Idx3d>)
    requires
        s.finite(),
        s.len() > 0,
    ensures
        is_least(s, least(s)),
    decreases s.len(),
{
    let a = s.choose();
    let rest = s.remove(a);
    if rest.len() == 0 {
        assert forall|q: Idx3d| s.contains(q) implies q == a by {
            if q != a {
                assert(rest.contains(q));
            }
        }
        assert(is_least(s, a));
    } else {
        lemma_least_exists(rest);
        let m = least(rest);
        if pos_lt(a, m) {
            assert forall|q: Idx3d| s.contains(q) implies !pos_lt(q, a) by {
                if q != a {
                    assert(rest.contains(q));
                }
            }
            assert(is_least(s, a));
        } else {
            assert forall|q: Idx3d| s.contains(q) implies !pos_lt(q, m) by {
                if q != a {
                    assert(rest.contains(q));
                }
            }
            assert(is_least(s, m));
        }
    }
}

/// The foreground of a volume is finite.
pub proof fn lemma_foreground_finite(vol: Volume)
    requires
        vol.wf(),
    ensures
        vol.foreground().finite(),
{
    lemma_grid_finite(vol);
    lemma_len_subset(vol.foreground(), Set::new(|p: Idx3d| vol.has(p)));
}

/// All holds of the state before the first round of a volume that is to
/// hold before every round.
pub proof fn lemma_start(vol: Volume, anisotropic: bool)
    requires
        vol.wf(),
    ensures
        vol.sound(vol.foreground(), vol.surface(), 0, vol.schedule(anisotropic)),
{
    lemma_foreground_finite(vol);
    lemma_sound_start(vol, vol.schedule(anisotropic));
}

/// A peeling that comes to an end has taken off every voxel that was left
/// once: the voxels taken off before the last round and those of the last
/// round are as many as there were, and the centre is the first voxel of
/// the last round.
pub proof fn lemma_peel_outcome(
    vol: Volume,
    remaining: Set<Idx3d>,
    frontier: Set<Idx3d>,
    cur: int,
    s: Schedule,
)
    requires
        vol.sound(remaining, frontier, cur, s),
        remaining.len() > 0,
    ensures
        vol.peel(remaining, frontier, cur, s) matches Some(o) ==> o.eroded + o.last.len()
            == remaining.len() && o.last.subset_of(remaining) && is_least(o.last, o.center),
    decreases remaining.len(), s.barrier - cur,
{
    let reached = cur + s.step;
    let full = reached >= s.barrier;
    let gone = vol.peeled(remaining, frontier, full, s.along_z);
    lemma_sound_step(vol, remaining, frontier, cur, s);
    if gone.len() == remaining.len() {
        lemma_least_exists(gone);
    } else if full && gone.len() == 0 {
    } else {
        let left = remaining.difference(gone);
        let bare = Volume::exposed(remaining, frontier, gone);
        let next = if full {
            reached - s.barrier
        } else {
            reached
        };
        lemma_peel_outcome(vol, left, bare, next, s);
    }
}

/// A set of voxels that holds every voxel of the volume next to one of
/// its own holds every voxel of the volume once it holds one.
pub proof fn lemma_closed_is_all(vol: Volume, held: Set<Idx3d>, p: Idx3d, q: Idx3d)
    requires
        vol.has(p),
        vol.has(q),
        held.contains(p),
        forall|a: Idx3d, b: Idx3d|
            held.contains(a) && vol.has(b) && #[trigger] adjacent(a, b) ==> held.contains(b),
    ensures
        held.contains(q),
    decreases steps(q, p),
{
    if p != q {
        let t = toward(q, p);
        lemma_toward(vol, q, false, p);
        assert(adjacent(p, t));
        lemma_closed_is_all(vol, held, t, q);
    }
}

/// A peeling comes to an end when some voxel of the volume is not among
/// those that are left.
pub proof fn lemma_peel_ends(
    vol: Volume,
    remaining: Set<Idx3d>,
    frontier: Set<Idx3d>,
    cur: int,
    s: Schedule,
    hole: Idx3d,
)
    requires
        vol.sound(remaining, frontier, cur, s),
        remaining.len() > 0,
        vol.has(hole),
        !remaining.contains(hole),
    ensures
        vol.peel(remaining, frontier, cur, s) is Some,
    decreases remaining.len(), s.barrier - cur,
{
    let reached = cur + s.step;
    let full = reached >= s.barrier;
    let gone = vol.peeled(remaining, frontier, full, s.along_z);
    lemma_sound_step(vol, remaining, frontier, cur, s);
    if gone.len() == remaining.len() {
    } else if full && gone.len() == 0 {
        assert(gone =~= frontier);
        assert(frontier.is_empty());
        let p = remaining.choose();
        assert(vol.foreground().contains(p));
        assert forall|a: Idx3d, b: Idx3d|
            remaining.contains(a) && vol.has(b) && #[trigger] adjacent(
                a,
                b,
            ) implies remaining.contains(b) by {
            if !remaining.contains(b) {
                assert(frontier.contains(a));
            }
        }
        lemma_closed_is_all(vol, remaining, p, hole);
    } else {
        let left = remaining.difference(gone);
        let bare = Volume::exposed(remaining, frontier, gone);
        let next = if full {
            reached - s.barrier
        } else {
            reached
        };
        lemma_peel_ends(vol, left, bare, next, s, hole);
    }
}

/// A peeling without candidates comes to no end.
pub proof fn lemma_peel_stuck(vol: Volume, remaining: Set<Idx3d>, cur: int, s: Schedule)
    requires
        remaining.finite(),
        remaining.len() > 0,
        0 < s.step <= s.barrier,
        0 <= cur < s.barrier,
    ensures
        vol.peel(remaining, Set::<Idx3d>::empty(), cur, s) is None,
    decreases s.barrier - cur,
{
    let none = Set::<Idx3d>::empty();
    let reached = cur + s.step;
    let full = reached >= s.barrier;
    let gone = vol.peeled(remaining, none, full, s.along_z);
    assert(gone =~= none);
    if !full {
        assert(remaining.difference(gone) =~= remaining);
        assert(Volume::exposed(remaining, none, gone) =~= none);
        lemma_peel_stuck(vol, remaining, reached, s);
    }
}

/// A volume has a centre exactly when it holds both a foreground voxel and
/// a voxel that is not foreground; the centre is then a foreground voxel.
pub proof fn lemma_center_exists(vol: Volume, anisotropic: bool)
    requires
        vol.wf(),
    ensures
        vol.center(anisotropic) is Some <==> (exists|p: Idx3d| vol.fg(p)) && (exists|q: Idx3d|
            vol.bg(q)),
        vol.center(anisotropic) matches Some(c) ==> vol.fg(c),
{
    let s = vol.schedule(anisotropic);
    lemma_start(vol, anisotropic);
    if exists|p: Idx3d| vol.fg(p) {
        let p = choose|p: Idx3d| vol.fg(p);
        assert(vol.foreground().contains(p));
        assert(vol.foreground().len() > 0);
        lemma_peel_outcome(vol, vol.foreground(), vol.surface(), 0, s);
        if exists|q: Idx3d| vol.bg(q) {
            let q = choose|q: Idx3d| vol.bg(q);
            lemma_peel_ends(vol, vol.foreground(), vol.surface(), 0, s, q);
        } else {
            assert(vol.surface() =~= Set::<Idx3d>::empty());
            lemma_peel_stuck(vol, vol.foreground(), 0, s);
        }
        if vol.center(anisotropic) is Some {
            let o = vol.erosion(anisotropic)->0;
            assert(o.last.contains(o.center));
            assert(vol.foreground().contains(o.center));
        }
    }
}

/// Conservation: the voxels taken off before the last round and those of
/// the last round are together as many as the foreground has voxels, and the
/// centre is the first voxel of the last round.  When the last round takes
/// off a single voxel, this is the centre, and one more than the voxels
/// taken off before make the foreground.
pub proof fn lemma_conservation(vol: Volume, anisotropic: bool)
    requires
        vol.wf(),
        vol.erosion(anisotropic) is Some,
    ensures
        ({
            let o = vol.erosion(anisotropic)->0;
            &&& vol.foreground().finite()
            &&& o.eroded + o.last.len() == vol.foreground().len()
            &&& o.last.subset_of(vol.foreground())
            &&& is_least(o.last, o.center)
            &&& o.last.len() == 1 ==> o.eroded + 1 == vol.foreground().len()
        }),
{
    lemma_start(vol, anisotropic);
    let p = choose|p: Idx3d| vol.fg(p);
    assert(vol.foreground().contains(p));
    assert(vol.foreground().len() > 0);
    lemma_peel_outcome(vol, vol.foreground(), vol.surface(), 0, vol.schedule(anisotropic));
}

/// Isotropy: when a voxel has the same size along all three axes, the
/// peeling that heeds the sizes is the peeling that does not.
pub proof fn lemma_isotropy(vol: Volume)
    requires
        vol.z_um == vol.height_um,
        vol.height_um == vol.width_um,
    ensures
        vol.erosion(true) == vol.erosion(false),
        vol.center(true) == vol.center(false),
{
}

/// A volume without foreground has no centre.
pub proof fn lemma_no_foreground(vol: Volume, anisotropic: bool)
    requires
        forall|p: Idx3d| !vol.fg(p),
    ensures
        vol.center(anisotropic) is None,
{
}

/// Whether two volumes have the same shape, the same labels on their
/// voxels, and voxels of the same size.
pub open spec fn same_scan(a: Volume, b: Volume) -> bool {
    &&& a.shape == b.shape
    &&& forall|p: Idx3d| a.has(p) ==> a.labels[p] == b.labels[p]
    &&& a.z_um == b.z_um
    &&& a.height_um == b.height_um
    &&& a.width_um == b.width_um
}

/// Two peelings of volumes of the same shape that start from the same state
/// end in the same way.
pub proof fn lemma_peel_same(
    a: Volume,
    b: Volume,
    remaining: Set<Idx3d>,
    frontier: Set<Idx3d>,
    cur: int,
    s: Schedule,
)
    requires
        a.shape == b.shape,
        a.sound(remaining, frontier, cur, s),
    ensures
        a.peel(remaining, frontier, cur, s) == b.peel(remaining, frontier, cur, s),
    decreases remaining.len(), s.barrier - cur,
{
    let reached = cur + s.step;
    let full = reached >= s.barrier;
    let gone = a.peeled(remaining, frontier, full, s.along_z);
    assert forall|p: Idx3d|
        a.shielded(remaining, p, s.along_z) == b.shielded(remaining, p, s.along_z) by {
        assert forall|q: Idx3d| a.has(q) == b.has(q) by {}
    }
    assert(gone =~= b.peeled(remaining, frontier, full, s.along_z));
    lemma_sound_step(a, remaining, frontier, cur, s);
    if gone.len() == remaining.len() {
    } else if full && gone.len() == 0 {
    } else {
        let left = remaining.difference(gone);
        let bare = Volume::exposed(remaining, frontier, gone);
        let next = if full {
            reached - s.barrier
        } else {
            reached
        };
        lemma_peel_same(a, b, left, bare, next, s);
    }
}

/// Determinism: the centre depends on nothing but the shape of the volume,
/// the labels of its voxels and the size of a voxel.
pub proof fn lemma_center_deterministic(a: Volume, b: Volume, anisotropic: bool)
    requires
        a.wf(),
        same_scan(a, b),
    ensures
        a.erosion(anisotropic) == b.erosion(anisotropic),
        a.center(anisotropic) == b.center(anisotropic),
{
    assert forall|p: Idx3d| a.fg(p) == b.fg(p) by {}
    assert forall|p: Idx3d| a.bg(p) == b.bg(p) by {}
    assert(a.foreground() =~= b.foreground());
    assert(a.surface() =~= b.surface());
    lemma_start(a, anisotropic);
    lemma_peel_same(a, b, a.foreground(), a.surface(), 0, a.schedule(anisotropic));
}

/// Radius monotonicity: a region within a radius is part of the region
/// within any larger radius around the same voxel.
pub proof fn lemma_roi_monotone(
    vol: Volume,
    c: Idx3d,
    r1: int,
    r2: int,
    include_tumor: bool,
)
    requires
        0 <= r1 <= r2,
    ensures
        vol.roi_3d(c, r1, include_tumor).subset_of(vol.roi_3d(c, r2, include_tumor)),
        vol.roi_2d(c, r1, include_tumor).subset_of(vol.roi_2d(c, r2, include_tumor)),
{
    assert(r1 * r1 <= r2 * r2) by (nonlinear_arith)
        requires
            0 <= r1 <= r2,
    ;
}

/// Only the voxel itself lies at no distance from a voxel.
pub proof fn lemma_dist2_zero(vol: Volume, c: Idx3d, p: Idx3d)
    requires
        vol.wf(),
    ensures
        vol.dist2(c, p) <= 0 <==> p == c,
{
    lemma_dist2_parts(vol, c, p);
    let wh = sq(vol.height_um as int);
    let wz = sq(vol.z_um as int);
    let a = sq(p.0 - c.0);
    let b = sq(p.1 - c.1);
    let d = sq(p.2 - c.2);
    assert(wh >= 1 && wz >= 1) by (nonlinear_arith)
        requires
            wh == vol.height_um * vol.height_um,
            wz == vol.z_um * vol.z_um,
            vol.height_um >= 1,
            vol.z_um >= 1,
    ;
    assert(a * wz >= a && b * wh >= b && d * wh >= d) by (nonlinear_arith)
        requires
            a >= 0,
            b >= 0,
            d >= 0,
            wh >= 1,
            wz >= 1,
    ;
    assert(a == 0 <==> p.0 == c.0) by (nonlinear_arith)
        requires
            a == (p.0 - c.0) * (p.0 - c.0),
    ;
    assert(b == 0 <==> p.1 == c.1) by (nonlinear_arith)
        requires
            b == (p.1 - c.1) * (p.1 - c.1),
    ;
    assert(d == 0 <==> p.2 == c.2) by (nonlinear_arith)
        requires
            d == (p.2 - c.2) * (p.2 - c.2),
    ;
    if p == c {
        assert(a * wz == 0 && b * wh == 0 && d * wh == 0) by (nonlinear_arith)
            requires
                a == 0,
                b == 0,
                d == 0,
        ;
    }
}

/// Zero radius: the region within no distance of a voxel is that voxel if
/// it is wanted, and empty otherwise.
pub proof fn lemma_roi_zero(vol: Volume, c: Idx3d, include_tumor: bool)
    requires
        vol.wf(),
    ensures
        vol.roi_3d(c, 0, include_tumor) == (if vol.wanted(include_tumor, c) {
            set![c]
        } else {
            Set::<Idx3d>::empty()
        }),
        vol.roi_2d(c, 0, include_tumor) == (if vol.wanted(include_tumor, c) {
            set![(c.1, c.2)]
        } else {
            Set::<Idx2d>::empty()
        }),
{
    assert forall|p: Idx3d| vol.dist2(c, p) <= 0 <==> p == c by {
        lemma_dist2_zero(vol, c, p);
    }
    assert(vol.roi_3d(c, 0, include_tumor) =~= (if vol.wanted(include_tumor, c) {
        set![c]
    } else {
        Set::<Idx3d>::empty()
    }));
    assert(vol.roi_2d(c, 0, include_tumor) =~= (if vol.wanted(include_tumor, c) {
        set![(c.1, c.2)]
    } else {
        Set::<Idx2d>::empty()
    }));
}

} // verus!
