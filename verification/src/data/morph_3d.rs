//! Morphology of the foreground of a volume.
use crate::Idx2d;
use crate::Idx3d;
use crate::consts::ElemType;
use crate::data::CtLabel;
use crate::data::Volume;
use crate::data::geometry::adjacent;
use crate::data::geometry::lemma_diamond;
use crate::data::geometry::pos_lt;
use crate::data::lists::hit;
use crate::data::morph_3d::depth::lemma_center_is_farthest;
use crate::data::morph_3d::erosion::Peeling;
use crate::data::morph_3d::erosion::Schedule;
use crate::data::morph_3d::erosion::after_eroding;
use crate::data::morph_3d::erosion::lemma_sound_start;
use crate::data::morph_3d::erosion::lemma_sound_step;
use crate::data::morph_3d::laws::lemma_center_exists;
use crate::data::morph_3d::laws::lemma_conservation;
use crate::data::morph_3d::phantom::Memento;
use crate::data::morph_3d::phantom::PhantomMemento;
use crate::data::morph_3d::roi::RoiGenerator;
use crate::data::morph_3d::round::Turn;
use vstd::prelude::*;

pub mod depth;
pub mod erosion;
pub mod heap;
pub mod laws;
pub mod peripheral;
pub mod phantom;
pub mod roi;
pub mod round;

verus! {

/// An index whose components are kept in 16 bits.
pub type Idx2dU16 = (u16, u16);

/// An index whose components are kept in 16 bits.
pub type Idx3dU16 = (u16, u16, u16);

/// Whether every component of `pos` can be kept in 16 bits.
pub open spec fn fits16(pos: Idx3d) -> bool {
    pos.0 < 0x1_0000 && pos.1 < 0x1_0000 && pos.2 < 0x1_0000
}

/// The index that stands for `pos` once its components are cut to 16 bits.
pub open spec fn wrap16(pos: Idx3d) -> Idx3d {
    ((pos.0 % 0x1_0000) as usize, (pos.1 % 0x1_0000) as usize, (pos.2 % 0x1_0000) as usize)
}

/// Cuts the components of a pixel index to 16 bits.
#[inline]
pub fn idx2d_to_u16(pos: &Idx2d) -> (r: Idx2dU16)
    ensures
        r.0 == pos.0 % 0x1_0000,
        r.1 == pos.1 % 0x1_0000,
{
    ((pos.0 % 0x1_0000) as u16, (pos.1 % 0x1_0000) as u16)
}

/// Cuts the components of a voxel index to 16 bits.
#[inline]
pub fn idx3d_to_u16(pos: &Idx3d) -> (r: Idx3dU16)
    ensures
        r.0 == pos.0 % 0x1_0000,
        r.1 == pos.1 % 0x1_0000,
        r.2 == pos.2 % 0x1_0000,
        widened(r) == wrap16(*pos),
{
    ((pos.0 % 0x1_0000) as u16, (pos.1 % 0x1_0000) as u16, (pos.2 % 0x1_0000) as u16)
}

/// The voxel index with the same components as `pos`.
pub open spec fn widened(pos: Idx3dU16) -> Idx3d {
    (pos.0 as usize, pos.1 as usize, pos.2 as usize)
}

/// Widens the components of a voxel index.
#[inline]
pub fn idx3du16_to_usize(pos: &Idx3dU16) -> (r: Idx3d)
    ensures
        r == widened(*pos),
        fits16(r),
{
    (pos.0 as usize, pos.1 as usize, pos.2 as usize)
}

/// The classes on record once the foreground voxel `pos` and the first `n`
/// voxels around it have been looked at.
pub open spec fn seeded(
    vol: Volume,
    before: Map<Idx3d, ElemType>,
    pos: Idx3d,
    around: Seq<Idx3d>,
    n: int,
) -> Map<Idx3d, ElemType>
    decreases n,
{
    if n <= 0 {
        before.insert(pos, ElemType::Foreground)
    } else if vol.bg(around[n - 1]) {
        seeded(vol, before, pos, around, n - 1).insert(around[n - 1], ElemType::Background)
    } else {
        seeded(vol, before, pos, around, n - 1)
    }
}

/// Whether one of the first `n` voxels of `around` is background.
pub open spec fn any_background(vol: Volume, around: Seq<Idx3d>, n: int) -> bool
    decreases n,
{
    if n <= 0 {
        false
    } else {
        vol.bg(around[n - 1]) || any_background(vol, around, n - 1)
    }
}

/// The classes on record after a voxel was looked at, class by class.
proof fn lemma_seeded(
    vol: Volume,
    before: Map<Idx3d, ElemType>,
    pos: Idx3d,
    around: Seq<Idx3d>,
    n: int,
)
    requires
        vol.fg(pos),
        0 <= n <= around.len(),
    ensures
        forall|p: Idx3d|
            #![trigger seeded(vol, before, pos, around, n).dom().contains(p)]
            seeded(vol, before, pos, around, n).dom().contains(p) <==> before.dom().contains(p)
                || p == pos || (hit(around, n, p) && vol.bg(p)),
        forall|p: Idx3d|
            #![trigger seeded(vol, before, pos, around, n).dom().contains(p)]
            seeded(vol, before, pos, around, n).dom().contains(p) ==> seeded(
                vol,
                before,
                pos,
                around,
                n,
            )[p] == (if p == pos {
                ElemType::Foreground
            } else if hit(around, n, p) && vol.bg(p) {
                ElemType::Background
            } else {
                before[p]
            }),
        any_background(vol, around, n) <==> exists|p: Idx3d| hit(around, n, p) && vol.bg(p),
    decreases n,
{
    if n > 0 {
        lemma_seeded(vol, before, pos, around, n - 1);
        let last = around[n - 1];
        assert(hit(around, n, last));
        assert forall|p: Idx3d| hit(around, n, p) <==> hit(around, n - 1, p) || p == last by {
            if hit(around, n - 1, p) {
                let j = choose|j: int| 0 <= j < n - 1 && around[j] == p;
                assert(0 <= j < n);
            }
            if hit(around, n, p) && p != last {
                let j = choose|j: int| 0 <= j < n && around[j] == p;
                assert(0 <= j < n - 1);
            }
        }
        let prev = seeded(vol, before, pos, around, n - 1);
        let now = seeded(vol, before, pos, around, n);
        assert forall|p: Idx3d| #![trigger now.dom().contains(p)]
            now.dom().contains(p) <==> before.dom().contains(p) || p == pos || (hit(around, n, p)
                && vol.bg(p)) by {
            assert(prev.dom().contains(p) <==> before.dom().contains(p) || p == pos || (hit(
                around,
                n - 1,
                p,
            ) && vol.bg(p)));
        }
        assert forall|p: Idx3d| #![trigger now.dom().contains(p)]
            now.dom().contains(p) implies now[p] == (if p == pos {
                ElemType::Foreground
            } else if hit(around, n, p) && vol.bg(p) {
                ElemType::Background
            } else {
                before[p]
            }) by {
            if prev.dom().contains(p) {
                assert(prev[p] == (if p == pos {
                    ElemType::Foreground
                } else if hit(around, n - 1, p) && vol.bg(p) {
                    ElemType::Background
                } else {
                    before[p]
                }));
            }
        }
        if any_background(vol, around, n - 1) {
            let p = choose|p: Idx3d| hit(around, n - 1, p) && vol.bg(p);
            assert(hit(around, n, p));
        }
        if exists|p: Idx3d| hit(around, n, p) && vol.bg(p) {
            let p = choose|p: Idx3d| hit(around, n, p) && vol.bg(p);
            if p != last {
                assert(hit(around, n - 1, p));
            }
        }
    } else {
        assert forall|p: Idx3d| !hit(around, n, p) by {}
    }
}

/// What looking at the foreground voxel `pos` adds to the records: its
/// class, that of the background around it, and `pos` itself as a candidate
/// when it lies on the surface.
pub open spec fn seeds(vol: Volume, before: Memento, after: Memento, pos: Idx3d) -> bool {
    &&& after.visited == before.visited
    &&& after.pending == before.pending
    &&& after.current == (if vol.surface().contains(pos) {
        before.current.insert(pos)
    } else {
        before.current
    })
    &&& forall|p: Idx3d|
        #![trigger after.classes.dom().contains(p)]
        #![trigger before.classes.dom().contains(p)]
        #![trigger adjacent(pos, p)]
        after.classes.dom().contains(p) <==> before.classes.dom().contains(p) || p == pos || (
        adjacent(pos, p) && vol.bg(p))
    &&& forall|p: Idx3d|
        #![trigger after.classes.dom().contains(p)]
        after.classes.dom().contains(p) ==> after.classes[p] == (if p == pos {
            ElemType::Foreground
        } else if adjacent(pos, p) && vol.bg(p) {
            ElemType::Background
        } else {
            before.classes[p]
        })
}

/// The voxel after `pos` in the order of indices, inside a grid of the given shape.
pub open spec fn successor(shape: Idx3d, pos: Idx3d) -> Idx3d {
    if pos.2 + 1 < shape.2 {
        (pos.0, pos.1, (pos.2 + 1) as usize)
    } else if pos.1 + 1 < shape.1 {
        (pos.0, (pos.1 + 1) as usize, 0)
    } else {
        ((pos.0 + 1) as usize, 0, 0)
    }
}

/// Within the grid, the voxels before the successor of `pos` are `pos` and
/// the voxels before it.
pub proof fn lemma_successor(vol: Volume, pos: Idx3d, p: Idx3d)
    requires
        vol.has(pos),
        vol.has(p),
    ensures
        pos_lt(p, successor(vol.shape, pos)) <==> pos_lt(p, pos) || p == pos,
{
}

proof fn lemma_scan_step_foreground(vol: Volume, before: Memento, after: Memento, pos: Idx3d)
    requires
        vol.has(pos),
        vol.scanned(before, pos),
        vol.fg(pos) ==> seeds(vol, before, after, pos),
        !vol.fg(pos) ==> after == before,
    ensures
        forall|p: Idx3d|
            #![trigger after.classes.dom().contains(p)]
            #![trigger vol.fg(p)]
            vol.fg(p) && pos_lt(p, successor(vol.shape, pos)) ==> after.classes.dom().contains(p)
                && after.classes[p] == ElemType::Foreground,
{
    assert forall|p: Idx3d|
        #![trigger after.classes.dom().contains(p)]
        #![trigger vol.fg(p)]
        vol.fg(p) && pos_lt(p, successor(vol.shape, pos)) implies after.classes.dom().contains(p)
            && after.classes[p] == ElemType::Foreground by {
        lemma_successor(vol, pos, p);
        if p != pos {
            assert(before.classes.dom().contains(p));
            assert(before.classes[p] == ElemType::Foreground);
            if vol.fg(pos) {
                assert(after.classes.dom().contains(p));
                assert(!vol.bg(p));
            }
        } else {
            assert(after.classes.dom().contains(p));
        }
    }
}

proof fn lemma_scan_step_background(vol: Volume, before: Memento, after: Memento, pos: Idx3d)
    requires
        vol.has(pos),
        vol.scanned(before, pos),
        vol.fg(pos) ==> seeds(vol, before, after, pos),
        !vol.fg(pos) ==> after == before,
    ensures
        forall|p: Idx3d, q: Idx3d|
            vol.fg(q) && pos_lt(q, successor(vol.shape, pos)) && #[trigger] adjacent(q, p)
                && vol.bg(p) ==> after.classes.dom().contains(p) && after.classes[p]
                == ElemType::Background,
{
    assert forall|p: Idx3d, q: Idx3d|
        vol.fg(q) && pos_lt(q, successor(vol.shape, pos)) && #[trigger] adjacent(q, p) && vol.bg(
            p,
        ) implies after.classes.dom().contains(p) && after.classes[p]
        == ElemType::Background by {
        lemma_successor(vol, pos, q);
        if q != pos {
            assert(before.classes.dom().contains(p));
            assert(before.classes[p] == ElemType::Background);
            if vol.fg(pos) {
                assert(after.classes.dom().contains(p));
            }
        } else {
            assert(after.classes.dom().contains(p));
        }
    }
}

proof fn lemma_scan_step_surface(vol: Volume, before: Memento, after: Memento, pos: Idx3d)
    requires
        vol.has(pos),
        vol.scanned(before, pos),
        vol.fg(pos) ==> seeds(vol, before, after, pos),
        !vol.fg(pos) ==> after == before,
    ensures
        forall|p: Idx3d|
            #![trigger after.current.contains(p)]
            #![trigger vol.surface().contains(p)]
            after.current.contains(p) <==> pos_lt(p, successor(vol.shape, pos))
                && vol.surface().contains(p),
        after.visited =~= Set::<Idx3d>::empty(),
        after.pending =~= Set::<Idx3d>::empty(),
{
    assert forall|p: Idx3d|
        #![trigger after.current.contains(p)]
        #![trigger vol.surface().contains(p)]
        after.current.contains(p) <==> pos_lt(p, successor(vol.shape, pos))
            && vol.surface().contains(p) by {
        assert(before.current.contains(p) <==> pos_lt(p, pos) && vol.surface().contains(p));
        if vol.surface().contains(p) {
            lemma_successor(vol, pos, p);
        }
    }
}

/// Looking at one more voxel keeps the records in step with the scan.
proof fn lemma_scan_step(vol: Volume, before: Memento, after: Memento, pos: Idx3d)
    requires
        vol.has(pos),
        vol.scanned(before, pos),
        vol.fg(pos) ==> seeds(vol, before, after, pos),
        !vol.fg(pos) ==> after == before,
    ensures
        vol.scanned(after, successor(vol.shape, pos)),
{
    lemma_scan_step_foreground(vol, before, after, pos);
    lemma_scan_step_background(vol, before, after, pos);
    lemma_scan_step_surface(vol, before, after, pos);
}

/// The centre of a peeling, with the numbers of voxels that were taken off
/// before the last round and by it.
#[derive(Copy, Clone, Debug)]
pub struct Erosion {
    /// The first voxel of the last round.
    pub center: Idx3d,
    /// The number of voxels taken off before the last round.
    pub eroded: u64,
    /// The number of voxels taken off by the last round.
    pub last: u64,
}

/// Whether `found` tells how the peeling `outcome` ended.
pub open spec fn agrees(found: Option<Erosion>, outcome: Option<Peeling>) -> bool {
    match (found, outcome) {
        (Some(e), Some(p)) => e.center == p.center && e.eroded == p.eroded && e.last
            == p.last.len(),
        (None, None) => true,
        _ => false,
    }
}

impl CtLabel {
    /// The morphological centre of the liver, tumors included: the first
    /// voxel, in the order of indices, of the last round of the peeling.
    ///
    /// With `anisotropic` the surface retreats at the same physical speed
    /// along all axes; without it, by one voxel a round.  Returns `None`
    /// when there is no foreground, or when the foreground has no surface
    /// to start from.
    pub fn center(&self, anisotropic: bool) -> (r: Option<Idx3d>)
        ensures
            r == self@.center(anisotropic),
            r is Some <==> (exists|p: Idx3d| self@.fg(p)) && (exists|q: Idx3d| self@.bg(q)),
            r matches Some(c) ==> self@.fg(c),
            !anisotropic ==> (r matches Some(c) ==> exists|last: int| #[trigger]
                self@.is_farthest(c, last)),
    {
        let _ = self.shape();
        proof {
            lemma_center_exists(self@, anisotropic);
            lemma_center_is_farthest(self@);
        }
        match self.erosion(anisotropic) {
            Some(found) => Some(found.center),
            None => None,
        }
    }

    /// The voxels within `radius` micrometres of the morphological centre
    /// that hold liver, or liver or tumor if `include_tumor`; each once, in
    /// no particular order.  Without a centre there are none.
    pub fn center_roi_3d(&self, radius: u64, anisotropic: bool, include_tumor: bool) -> (r: Vec<
        Idx3d,
    >)
        ensures
            match self@.center(anisotropic) {
                Some(c) => r@.no_duplicates() && r@.to_set() == self@.roi_3d(
                    c,
                    radius as int,
                    include_tumor,
                ),
                None => r@.len() == 0,
            },
    {
        match self.center(anisotropic) {
            Some(center) => RoiGenerator::new(self, &center).extract_roi_3d(radius, include_tumor),
            None => Vec::new(),
        }
    }

    /// The slice of the morphological centre, and the pixels of that slice
    /// within `radius` micrometres of the centre that hold liver, or liver
    /// or tumor if `include_tumor`; each once, in no particular order.
    /// Without a centre the slice is `usize::MAX` and there are no pixels.
    pub fn center_roi_2d(&self, radius: u64, anisotropic: bool, include_tumor: bool) -> (r: (
        usize,
        Vec<Idx2d>,
    ))
        ensures
            match self@.center(anisotropic) {
                Some(c) => r.0 == c.0 && r.1@.no_duplicates() && r.1@.to_set() == self@.roi_2d(
                    c,
                    radius as int,
                    include_tumor,
                ),
                None => r.0 == usize::MAX && r.1@.len() == 0,
            },
    {
        match self.center(anisotropic) {
            Some(center) => (
                center.0,
                RoiGenerator::new(self, &center).extract_roi_2d(radius, include_tumor),
            ),
            None => (usize::MAX, Vec::new()),
        }
    }

    /// Peels the foreground down to its centre and counts the voxels taken off.
    pub fn erosion(&self, anisotropic: bool) -> (r: Option<Erosion>)
        ensures
            agrees(r, self@.erosion(anisotropic)),
            r matches Some(e) ==> self@.fg(e.center) && e.eroded + e.last
                == self@.foreground().len(),
    {
        let (db, vox_cnt) = self.init_book_keeping();
        proof {
            if self@.erosion(anisotropic) is Some {
                lemma_conservation(self@, anisotropic);
            }
        }
        if vox_cnt == 0 {
            proof {
                assert forall|p: Idx3d| !self@.fg(p) by {
                    if self@.fg(p) {
                        assert(self@.foreground().contains(p));
                    }
                }
            }
            return None;
        }
        proof {
            assert(!self@.foreground().is_empty());
            let p = choose|p: Idx3d| self@.foreground().contains(p);
            assert(self@.fg(p));
        }
        if anisotropic {
            self.center_roi_anisotropic(db, vox_cnt)
        } else {
            self.center_roi_isotropic(db, vox_cnt)
        }
    }

    /// Peels the foreground by one voxel a round.
    fn center_roi_isotropic(&self, db: PhantomMemento, vox_cnt: u64) -> (r: Option<Erosion>)
        requires
            self@.tracks(db@, self@.foreground(), self@.surface()),
            self@.foreground().finite(),
            vox_cnt == self@.foreground().len(),
            vox_cnt >= 1,
        ensures
            agrees(
                r,
                self@.peel(
                    self@.foreground(),
                    self@.surface(),
                    0,
                    Schedule { step: 1, barrier: 1, along_z: true },
                ),
            ),
            r matches Some(e) ==> self@.fg(e.center),
    {
        let ghost vol = self@;
        let ghost s = Schedule { step: 1, barrier: 1, along_z: true };
        let ghost whole = vol.peel(vol.foreground(), vol.surface(), 0, s);
        let ghost mut remaining = vol.foreground();
        let ghost mut frontier = vol.surface();
        let mut db = db;
        let mut vox_cnt = vox_cnt;
        let mut eroded: u64 = 0;
        proof {
            lemma_sound_start(vol, s);
        }
        loop
            invariant
                vol == self@,
                vol.sound(remaining, frontier, 0, s),
                vol.tracks(db@, remaining, frontier),
                s == (Schedule { step: 1, barrier: 1, along_z: true }),
                vox_cnt == remaining.len(),
                vox_cnt >= 1,
                eroded + vox_cnt <= u64::MAX,
                whole == vol.peel(vol.foreground(), vol.surface(), 0, s),
                whole == after_eroding(vol.peel(remaining, frontier, 0, s), eroded as nat),
            decreases vox_cnt,
        {
            let turn = self.erode_round(&mut db, vox_cnt, true, true, Ghost(remaining), Ghost(frontier));
            proof {
                lemma_sound_step(vol, remaining, frontier, 0, s);
            }
            match turn {
                Turn::Center(center) => {
                    return Some(Erosion { center, eroded, last: vox_cnt });
                },
                Turn::Stuck => {
                    return None;
                },
                Turn::Peeled(n) => {
                    proof {
                        let gone = vol.peeled(remaining, frontier, true, true);
                        frontier = Volume::exposed(remaining, frontier, gone);
                        remaining = remaining.difference(gone);
                    }
                    vox_cnt -= n as u64;
                    eroded += n as u64;
                },
            }
        }
    }

    /// Peels the foreground at the pace of the voxel's sizes, if they differ.
    #[inline]
    fn center_roi_anisotropic(&self, db: PhantomMemento, vox_cnt: u64) -> (r: Option<Erosion>)
        requires
            self@.tracks(db@, self@.foreground(), self@.surface()),
            self@.foreground().finite(),
            vox_cnt == self@.foreground().len(),
            vox_cnt >= 1,
        ensures
            agrees(
                r,
                self@.peel(self@.foreground(), self@.surface(), 0, self@.schedule(true)),
            ),
            r matches Some(e) ==> self@.fg(e.center),
    {
        if self.height_um() > self.z_um() {
            self.center_roi_with_height_greater(db, vox_cnt)
        } else if self.height_um() < self.z_um() {
            self.center_roi_with_z_greater(db, vox_cnt)
        } else {
            self.center_roi_isotropic(db, vox_cnt)
        }
    }

    /// Peels a foreground whose voxels are higher than the slices are apart:
    /// in a restricted round a candidate stays while both its neighbours
    /// along the slice axis are there.
    fn center_roi_with_height_greater(&self, db: PhantomMemento, vox_cnt: u64) -> (r: Option<
        Erosion,
    >)
        requires
            self@.height_um > self@.z_um,
            self@.tracks(db@, self@.foreground(), self@.surface()),
            self@.foreground().finite(),
            vox_cnt == self@.foreground().len(),
            vox_cnt >= 1,
        ensures
            agrees(
                r,
                self@.peel(
                    self@.foreground(),
                    self@.surface(),
                    0,
                    Schedule {
                        step: self@.z_um as int,
                        barrier: self@.height_um as int,
                        along_z: true,
                    },
                ),
            ),
            r matches Some(e) ==> self@.fg(e.center),
    {
        let ghost vol = self@;
        let (step, barrier) = (self.z_um() as u64, self.height_um() as u64);
        let ghost s = Schedule { step: step as int, barrier: barrier as int, along_z: true };
        let ghost whole = vol.peel(vol.foreground(), vol.surface(), 0, s);
        let ghost mut remaining = vol.foreground();
        let ghost mut frontier = vol.surface();
        let mut db = db;
        let mut vox_cnt = vox_cnt;
        let mut eroded: u64 = 0;
        let mut cur_step: u64 = 0;
        proof {
            lemma_sound_start(vol, s);
        }
        loop
            invariant
                vol == self@,
                vol.sound(remaining, frontier, cur_step as int, s),
                vol.tracks(db@, remaining, frontier),
                s == (Schedule { step: step as int, barrier: barrier as int, along_z: true }),
                step == vol.z_um,
                barrier == vol.height_um,
                barrier <= u32::MAX,
                vox_cnt == remaining.len(),
                vox_cnt >= 1,
                eroded + vox_cnt <= u64::MAX,
                whole == vol.peel(vol.foreground(), vol.surface(), 0, s),
                whole == after_eroding(
                    vol.peel(remaining, frontier, cur_step as int, s),
                    eroded as nat,
                ),
            decreases vox_cnt, barrier - cur_step,
        {
            let ghost cur = cur_step as int;
            cur_step += step;
            let full = cur_step >= barrier;
            if full {
                cur_step -= barrier;
            }
            let turn = self.erode_round(&mut db, vox_cnt, full, true, Ghost(remaining), Ghost(frontier));
            proof {
                lemma_sound_step(vol, remaining, frontier, cur, s);
            }
            match turn {
                Turn::Center(center) => {
                    return Some(Erosion { center, eroded, last: vox_cnt });
                },
                Turn::Stuck => {
                    return None;
                },
                Turn::Peeled(n) => {
                    proof {
                        let gone = vol.peeled(remaining, frontier, full, true);
                        frontier = Volume::exposed(remaining, frontier, gone);
                        remaining = remaining.difference(gone);
                    }
                    vox_cnt -= n as u64;
                    eroded += n as u64;
                },
            }
        }
    }

    /// Peels a foreground whose slices are further apart than its voxels are
    /// high: in a restricted round a candidate stays while all its
    /// neighbours inside its slice are there.
    fn center_roi_with_z_greater(&self, db: PhantomMemento, vox_cnt: u64) -> (r: Option<Erosion>)
        requires
            self@.z_um > self@.height_um,
            self@.tracks(db@, self@.foreground(), self@.surface()),
            self@.foreground().finite(),
            vox_cnt == self@.foreground().len(),
            vox_cnt >= 1,
        ensures
            agrees(
                r,
                self@.peel(
                    self@.foreground(),
                    self@.surface(),
                    0,
                    Schedule {
                        step: self@.height_um as int,
                        barrier: self@.z_um as int,
                        along_z: false,
                    },
                ),
            ),
            r matches Some(e) ==> self@.fg(e.center),
    {
        let ghost vol = self@;
        let (step, barrier) = (self.height_um() as u64, self.z_um() as u64);
        let ghost s = Schedule { step: step as int, barrier: barrier as int, along_z: false };
        let ghost whole = vol.peel(vol.foreground(), vol.surface(), 0, s);
        let ghost mut remaining = vol.foreground();
        let ghost mut frontier = vol.surface();
        let mut db = db;
        let mut vox_cnt = vox_cnt;
        let mut eroded: u64 = 0;
        let mut cur_step: u64 = 0;
        proof {
            lemma_sound_start(vol, s);
        }
        loop
            invariant
                vol == self@,
                vol.sound(remaining, frontier, cur_step as int, s),
                vol.tracks(db@, remaining, frontier),
                s == (Schedule { step: step as int, barrier: barrier as int, along_z: false }),
                step == vol.height_um,
                barrier == vol.z_um,
                barrier <= u32::MAX,
                vox_cnt == remaining.len(),
                vox_cnt >= 1,
                eroded + vox_cnt <= u64::MAX,
                whole == vol.peel(vol.foreground(), vol.surface(), 0, s),
                whole == after_eroding(
                    vol.peel(remaining, frontier, cur_step as int, s),
                    eroded as nat,
                ),
            decreases vox_cnt, barrier - cur_step,
        {
            let ghost cur = cur_step as int;
            cur_step += step;
            let full = cur_step >= barrier;
            if full {
                cur_step -= barrier;
            }
            let turn = self.erode_round(&mut db, vox_cnt, full, false, Ghost(remaining), Ghost(frontier));
            proof {
                lemma_sound_step(vol, remaining, frontier, cur, s);
            }
            match turn {
                Turn::Center(center) => {
                    return Some(Erosion { center, eroded, last: vox_cnt });
                },
                Turn::Stuck => {
                    return None;
                },
                Turn::Peeled(n) => {
                    proof {
                        let gone = vol.peeled(remaining, frontier, full, false);
                        frontier = Volume::exposed(remaining, frontier, gone);
                        remaining = remaining.difference(gone);
                    }
                    vox_cnt -= n as u64;
                    eroded += n as u64;
                },
            }
        }
    }

    /// Looks at every voxel of the volume once.  Returns the records for the
    /// first round and the number of foreground voxels.
    fn init_book_keeping(&self) -> (r: (PhantomMemento, u64))
        ensures
            self@.tracks(r.0@, self@.foreground(), self@.surface()),
            self@.foreground().finite(),
            r.1 == self@.foreground().len(),
            self@.wf(),
    {
        let ghost vol = self@;
        let (zs, hs, ws) = self.shape();
        let mut db = PhantomMemento::new();
        let mut vox_cnt: u64 = 0;
        let ghost mut seen: Set<Idx3d> = Set::empty();
        if zs == 0 || hs == 0 || ws == 0 {
            proof {
                assert(vol.foreground() =~= seen);
                assert forall|p: Idx3d| !vol.has(p) by {}
            }
            return (db, vox_cnt);
        }
        let mut pos: Idx3d = (0, 0, 0);
        while pos.0 < zs
            invariant
                vol == self@,
                vol.wf(),
                vol.shape == (zs, hs, ws),
                hs > 0,
                ws > 0,
                vol.has(pos) || pos == (zs, 0usize, 0usize),
                vol.scanned(db@, pos),
                seen.finite(),
                vox_cnt == seen.len(),
                vox_cnt <= pos.0 * 0x1_0000_0000 + pos.1 * 0x1_0000 + pos.2,
                forall|p: Idx3d| #[trigger] seen.contains(p) <==> vol.fg(p) && pos_lt(p, pos),
            decreases zs - pos.0, hs - pos.1, ws - pos.2,
        {
            let ghost before = db@;
            if self.is_foreground_at(pos) {
                vox_cnt += 1;
                self.seed(&mut db, pos);
                proof {
                    seen = seen.insert(pos);
                }
            }
            proof {
                lemma_scan_step(vol, before, db@, pos);
                assert forall|p: Idx3d| vol.has(p) implies (pos_lt(p, successor(vol.shape, pos))
                    <==> pos_lt(p, pos) || p == pos) by {
                    lemma_successor(vol, pos, p);
                }
            }
            if pos.2 + 1 < ws {
                pos = (pos.0, pos.1, pos.2 + 1);
            } else if pos.1 + 1 < hs {
                pos = (pos.0, pos.1 + 1, 0);
            } else {
                pos = (pos.0 + 1, 0, 0);
            }
        }
        proof {
            assert forall|p: Idx3d| vol.has(p) implies pos_lt(p, pos) by {}
            assert(vol.foreground() =~= seen);
            let m = db@;
            assert forall|p: Idx3d|
                #![trigger m.classes.dom().contains(p)]
                #![trigger vol.fg(p)]
                vol.fg(p) implies m.classes.dom().contains(p) && (m.classes[p]
                == ElemType::Foreground <==> vol.foreground().contains(p)) by {
                assert(pos_lt(p, pos));
            }
            assert forall|p: Idx3d, q: Idx3d|
                vol.fg(q) && vol.has(p) && #[trigger] adjacent(q, p) implies m.classes.dom().contains(
                    p,
                ) && (m.classes[p] == ElemType::Foreground <==> vol.foreground().contains(p)) by {
                assert(pos_lt(p, pos) && pos_lt(q, pos));
                if vol.fg(p) {
                    assert(m.classes.dom().contains(p));
                }
            }
            assert(vol.classified(m.classes, vol.foreground()));
            assert(vol.peeled_off(m.visited, vol.foreground()));
            assert forall|p: Idx3d| #[trigger] m.current.contains(p) implies vol.fg(p) by {}
            assert forall|p: Idx3d|
                #![trigger vol.surface().contains(p)]
                #![trigger m.current.contains(p)]
                vol.surface().contains(p) <==> m.current.contains(p) && vol.foreground().contains(
                    p,
                ) by {
                if vol.surface().contains(p) {
                    assert(pos_lt(p, pos));
                }
            }
        }
        (db, vox_cnt)
    }

    /// Records the class of the foreground voxel `pos` and of the background
    /// around it, and notes `pos` for the first round when it lies on the
    /// surface.
    fn seed(&self, db: &mut PhantomMemento, pos: Idx3d)
        requires
            self@.fg(pos),
        ensures
            seeds(self@, old(db)@, final(db)@, pos),
    {
        let ghost vol = self@;
        let ghost before = db@;
        let _ = self.shape();
        db.set_foreground(&pos);
        let mut is_surface = false;
        let around = self.diamond_neighbours(pos);
        let mut i: usize = 0;
        while i < around.len()
            invariant
                vol == self@,
                vol.wf(),
                vol.has(pos),
                0 <= i <= around.len(),
                forall|j: int| 0 <= j < around.len() ==> vol.has(#[trigger] around@[j]),
                db@.visited == before.visited,
                db@.pending == before.pending,
                db@.current == before.current,
                is_surface == any_background(vol, around@, i as int),
                db@.classes == seeded(vol, before.classes, pos, around@, i as int),
            decreases around.len() - i,
        {
            let n = around[i];
            if !self.is_foreground_at(n) {
                is_surface = true;
                db.set_background(&n);
            }
            i += 1;
        }
        proof {
            let end = around@.len() as int;
            lemma_seeded(vol, before.classes, pos, around@, end);
            assert forall|p: Idx3d| hit(around@, end, p) <==> (vol.has(p) && adjacent(pos, p)) by {
                lemma_diamond(vol.shape, pos, p);
                if hit(around@, end, p) {
                    let j = choose|j: int| 0 <= j < end && around@[j] == p;
                    assert(around@.contains(p));
                }
                if vol.has(p) && adjacent(pos, p) {
                    assert(around@.contains(p));
                    let j = choose|j: int| 0 <= j < around@.len() && around@[j] == p;
                    assert(hit(around@, end, p));
                }
            }
            if is_surface {
                let q = choose|q: Idx3d| hit(around@, end, q) && vol.bg(q);
                assert(adjacent(pos, q) && vol.bg(q));
            }
            if vol.surface().contains(pos) {
                let q = choose|q: Idx3d| adjacent(pos, q) && vol.bg(q);
                assert(hit(around@, end, q));
            }
        }
        if is_surface {
            db.push_pos(&pos);
        }
    }
}

} // verus!
