//! The voxels within a physical radius of a voxel.
use binary_heap_plus::BinaryHeap;
use binary_heap_plus::MinComparator;
use crate::Idx2d;
use crate::Idx3d;
use crate::consts::gray::LITS_LIVER;
use crate::consts::gray::is_liver;
use crate::consts::gray::is_liver_or_tumor;
use crate::consts::gray::liver_or_tumor;
use crate::data::CtLabel;
use crate::data::Volume;
use crate::data::geometry::adjacent;
use crate::data::geometry::adjacent_hw;
use crate::data::geometry::lemma_diamond;
use crate::data::geometry::lemma_hw_neighbours;
use crate::data::lists::hit;
use crate::data::lists::lemma_hit_all;
use crate::data::lists::lemma_hit_step;
use crate::data::lists::lemma_push_grows;
use crate::data::lists::lemma_push_grows_2d;
use crate::data::morph_3d::heap::Entry;
use crate::data::morph_3d::heap::entry_le;
use crate::data::morph_3d::heap::heap_items;
use crate::data::morph_3d::heap::heap_new;
use crate::data::morph_3d::heap::heap_pop;
use crate::data::morph_3d::heap::heap_push;
use crate::data::morph_3d::phantom::file;
use crate::data::morph_3d::phantom::lemma_key_injective;
use crate::data::morph_3d::phantom::lemma_key_round_trip;
use crate::data::morph_3d::phantom::pos_of;
use crate::data::morph_3d::phantom::voxel_key;
use crate::data::morph_3d::widened;
use std::collections::HashSet;
use vstd::multiset::Multiset;
use vstd::prelude::*;
use vstd::set_lib::lemma_int_range;
use vstd::set_lib::lemma_len_subset;
use vstd::set_lib::set_int_range;

verus! {

/// The square of a length.
pub open spec fn sq(x: int) -> int {
    x * x
}

impl Volume {
    /// The squared physical distance between two voxels, in square micrometres.
    pub open spec fn dist2(self, c: Idx3d, p: Idx3d) -> int {
        (sq(p.1 - c.1) + sq(p.2 - c.2)) * sq(self.height_um as int) + sq(p.0 - c.0) * sq(
            self.z_um as int,
        )
    }

    /// Whether `p` is a voxel of the volume whose label is asked for: liver,
    /// and tumor too if it is to count.
    pub open spec fn wanted(self, include_tumor: bool, p: Idx3d) -> bool {
        self.has(p) && (if include_tumor {
            liver_or_tumor(self.labels[p])
        } else {
            self.labels[p] == LITS_LIVER
        })
    }

    /// Whether `p` is a voxel of the volume within `radius` of `c`, in the
    /// slice of `c` if `planar`.
    pub open spec fn reach(self, c: Idx3d, radius: int, planar: bool, p: Idx3d) -> bool {
        self.has(p) && (planar ==> p.0 == c.0) && self.dist2(c, p) <= radius * radius
    }

    /// The wanted voxels within `radius` micrometres of `c`.
    pub open spec fn roi_3d(self, c: Idx3d, radius: int, include_tumor: bool) -> Set<Idx3d> {
        Set::new(|p: Idx3d| self.wanted(include_tumor, p) && self.reach(c, radius, false, p))
    }

    /// The wanted pixels of the slice of `c` within `radius` micrometres of `c`.
    pub open spec fn roi_2d(self, c: Idx3d, radius: int, include_tumor: bool) -> Set<Idx2d> {
        Set::new(
            |p: Idx2d|
                self.wanted(include_tumor, (c.0, p.0, p.1)) && self.reach(
                    c,
                    radius,
                    true,
                    (c.0, p.0, p.1),
                ),
        )
    }
}

/// Whether a label is asked for: liver, and tumor too if it is to count.
#[inline]
pub fn is_foreground(include_tumor: bool, pixel: u8) -> (r: bool)
    ensures
        r == (if include_tumor {
            liver_or_tumor(pixel)
        } else {
            pixel == LITS_LIVER
        }),
{
    if include_tumor {
        is_liver_or_tumor(pixel)
    } else {
        is_liver(pixel)
    }
}

/// The squares of the differences of two indices, axis by axis.
#[inline]
pub fn idx3d_diff_pow(a: Idx3d, b: Idx3d) -> (r: (u64, u64, u64))
    requires
        a.0 <= 0x1_0000 && a.1 <= 0x1_0000 && a.2 <= 0x1_0000,
        b.0 <= 0x1_0000 && b.1 <= 0x1_0000 && b.2 <= 0x1_0000,
    ensures
        r.0 == sq(a.0 - b.0),
        r.1 == sq(a.1 - b.1),
        r.2 == sq(a.2 - b.2),
        r.0 <= 0x1_0000_0000 && r.1 <= 0x1_0000_0000 && r.2 <= 0x1_0000_0000,
{
    (diff_pow(a.0, b.0), diff_pow(a.1, b.1), diff_pow(a.2, b.2))
}

fn diff_pow(a: usize, b: usize) -> (r: u64)
    requires
        a <= 0x1_0000,
        b <= 0x1_0000,
    ensures
        r == sq(a - b),
        r <= 0x1_0000_0000,
{
    let d: u64 = if a >= b {
        (a - b) as u64
    } else {
        (b - a) as u64
    };
    proof {
        assert(d * d <= 0x1_0000 * 0x1_0000) by (nonlinear_arith)
            requires
                0 <= d <= 0x1_0000,
        ;
        assert(d * d == (a - b) * (a - b)) by (nonlinear_arith)
            requires
                d == a - b || d == b - a,
        ;
    }
    d * d
}

/// The area of a square of a given side fits in 64 bits, and that of a
/// square as large as a pixel, counted as often as two indices can differ, in
/// 128 bits.
pub proof fn lemma_weight_bounds(d: u64, side: u32)
    requires
        d <= 0x2_0000_0000,
    ensures
        side * side <= 0xffff_ffff * 0xffff_ffff,
        d * (side * side) <= 0x2_0000_0000 * (0xffff_ffff * 0xffff_ffff),
{
    assert(side * side <= 0xffff_ffff * 0xffff_ffff) by (nonlinear_arith)
        requires
            0 <= side <= 0xffff_ffff,
    ;
    assert(d * (side * side) <= 0x2_0000_0000 * (0xffff_ffff * 0xffff_ffff)) by (nonlinear_arith)
        requires
            0 <= d <= 0x2_0000_0000,
            0 <= side * side <= 0xffff_ffff * 0xffff_ffff,
    ;
}

broadcast use {vstd::std_specs::hash::group_hash_axioms, vstd::multiset::group_multiset_axioms};

/// Whether the flood passes from `p` to `q`: inside the slice if `planar`,
/// and along any axis otherwise.
pub open spec fn near(planar: bool, p: Idx3d, q: Idx3d) -> bool {
    if planar {
        adjacent_hw(p, q)
    } else {
        adjacent(p, q)
    }
}

/// The entry under which the voxel `p` waits in the queue.
pub open spec fn entry_of(vol: Volume, c: Idx3d, p: Idx3d) -> Entry {
    (vol.dist2(c, p) as u128, p.0, p.1, p.2)
}

/// Whether the voxel `q` waits in the queue.
pub open spec fn queued(heap: Multiset<Entry>, vol: Volume, c: Idx3d, q: Idx3d) -> bool {
    heap.count(entry_of(vol, c, q)) > 0
}

/// What holds while the flood runs: the accepted voxels lie within reach
/// and are on record, every entry of the queue is a voxel of the flood with
/// its distance, and the centre and every neighbour of an accepted voxel is
/// accepted or waits in the queue.
pub open spec fn flooding(
    vol: Volume,
    c: Idx3d,
    radius: int,
    planar: bool,
    accepted: Seq<Idx3d>,
    keys: Set<u64>,
    heap: Multiset<Entry>,
) -> bool {
    &&& accepted.no_duplicates()
    &&& forall|p: Idx3d| #[trigger] accepted.contains(p) ==> vol.reach(c, radius, planar, p)
    &&& forall|p: Idx3d|
        #![trigger keys.contains(voxel_key(p))]
        #![trigger accepted.contains(p)]
        vol.has(p) ==> (keys.contains(voxel_key(p)) <==> accepted.contains(p))
    &&& forall|y: Entry| #[trigger]
        heap.count(y) > 0 ==> vol.has((y.1, y.2, y.3)) && (planar ==> y.1 == c.0) && y
            == entry_of(vol, c, (y.1, y.2, y.3))
    &&& accepted.contains(c) || queued(heap, vol, c, c)
    &&& forall|p: Idx3d, q: Idx3d|
        #![trigger accepted.contains(p), near(planar, p, q)]
        accepted.contains(p) && vol.has(q) && near(planar, p, q) ==> accepted.contains(q)
            || queued(heap, vol, c, q)
}

/// What holds when the flood has stopped: the accepted voxels lie within
/// reach, the centre is accepted, and every neighbour of an accepted voxel
/// is accepted or out of reach.
pub open spec fn flooded(
    vol: Volume,
    c: Idx3d,
    radius: int,
    planar: bool,
    accepted: Seq<Idx3d>,
) -> bool {
    &&& accepted.no_duplicates()
    &&& forall|p: Idx3d| #[trigger] accepted.contains(p) ==> vol.reach(c, radius, planar, p)
    &&& accepted.contains(c)
    &&& forall|p: Idx3d, q: Idx3d|
        #![trigger accepted.contains(p), near(planar, p, q)]
        accepted.contains(p) && vol.has(q) && near(planar, p, q) ==> accepted.contains(q)
            || vol.dist2(c, q) > radius * radius
}

/// The voxel one step from `q` towards `c`.
pub open spec fn toward(c: Idx3d, q: Idx3d) -> Idx3d {
    if q.0 > c.0 {
        ((q.0 - 1) as usize, q.1, q.2)
    } else if q.0 < c.0 {
        ((q.0 + 1) as usize, q.1, q.2)
    } else if q.1 > c.1 {
        (q.0, (q.1 - 1) as usize, q.2)
    } else if q.1 < c.1 {
        (q.0, (q.1 + 1) as usize, q.2)
    } else if q.2 > c.2 {
        (q.0, q.1, (q.2 - 1) as usize)
    } else {
        (q.0, q.1, (q.2 + 1) as usize)
    }
}

/// The number of steps between two voxels.
pub open spec fn steps(c: Idx3d, q: Idx3d) -> int {
    (if q.0 >= c.0 {
        q.0 - c.0
    } else {
        c.0 - q.0
    }) + (if q.1 >= c.1 {
        q.1 - c.1
    } else {
        c.1 - q.1
    }) + (if q.2 >= c.2 {
        q.2 - c.2
    } else {
        c.2 - q.2
    })
}

/// A difference that shrinks by one in size has a square that is no larger.
proof fn lemma_sq_step(d: int, e: int)
    requires
        (d > 0 && e == d - 1) || (d < 0 && e == d + 1),
    ensures
        0 <= sq(e) <= sq(d),
{
    assert(0 <= e * e <= d * d) by (nonlinear_arith)
        requires
            (d > 0 && e == d - 1) || (d < 0 && e == d + 1),
    ;
}

/// The squared distance is a sum of squares with positive weights.
pub proof fn lemma_dist2_parts(vol: Volume, c: Idx3d, p: Idx3d)
    ensures
        vol.dist2(c, p) == sq(p.1 - c.1) * sq(vol.height_um as int) + sq(p.2 - c.2) * sq(
            vol.height_um as int,
        ) + sq(p.0 - c.0) * sq(vol.z_um as int),
        sq(p.0 - c.0) >= 0,
        sq(p.1 - c.1) >= 0,
        sq(p.2 - c.2) >= 0,
        sq(vol.height_um as int) >= 0,
        sq(vol.z_um as int) >= 0,
{
    let a = sq(p.1 - c.1);
    let b = sq(p.2 - c.2);
    let w = sq(vol.height_um as int);
    assert((a + b) * w == a * w + b * w) by (nonlinear_arith);
    assert(sq(p.0 - c.0) >= 0) by (nonlinear_arith);
    assert(sq(p.1 - c.1) >= 0) by (nonlinear_arith);
    assert(sq(p.2 - c.2) >= 0) by (nonlinear_arith);
    assert(sq(vol.height_um as int) >= 0) by (nonlinear_arith);
    assert(sq(vol.z_um as int) >= 0) by (nonlinear_arith);
}

/// A product with a weight that is not negative grows with its other factor.
proof fn lemma_weighted_le(a: int, b: int, w: int)
    requires
        a <= b,
        w >= 0,
    ensures
        a * w <= b * w,
{
    assert(a * w <= b * w) by (nonlinear_arith)
        requires
            a <= b,
            w >= 0,
    ;
}

/// One step towards the centre leads to a voxel of the volume that is next
/// to the voxel left, one step nearer the centre, and no further from it.
pub proof fn lemma_toward(vol: Volume, c: Idx3d, planar: bool, q: Idx3d)
    requires
        vol.has(c),
        vol.has(q),
        planar ==> q.0 == c.0,
        q != c,
    ensures
        vol.has(toward(c, q)),
        planar ==> toward(c, q).0 == c.0,
        near(planar, toward(c, q), q),
        steps(c, toward(c, q)) == steps(c, q) - 1,
        vol.dist2(c, toward(c, q)) <= vol.dist2(c, q),
{
    let t = toward(c, q);
    lemma_dist2_parts(vol, c, q);
    lemma_dist2_parts(vol, c, t);
    let wh = sq(vol.height_um as int);
    let wz = sq(vol.z_um as int);
    if q.0 != c.0 {
        lemma_sq_step(q.0 - c.0, t.0 - c.0);
        lemma_weighted_le(sq(t.0 - c.0), sq(q.0 - c.0), wz);
    } else if q.1 != c.1 {
        lemma_sq_step(q.1 - c.1, t.1 - c.1);
        lemma_weighted_le(sq(t.1 - c.1), sq(q.1 - c.1), wh);
    } else {
        lemma_sq_step(q.2 - c.2, t.2 - c.2);
        lemma_weighted_le(sq(t.2 - c.2), sq(q.2 - c.2), wh);
    }
}

/// A flood that has stopped has accepted every voxel within reach.
pub proof fn lemma_reached(
    vol: Volume,
    c: Idx3d,
    radius: int,
    planar: bool,
    accepted: Seq<Idx3d>,
    q: Idx3d,
)
    requires
        vol.has(c),
        flooded(vol, c, radius, planar, accepted),
        vol.reach(c, radius, planar, q),
    ensures
        accepted.contains(q),
    decreases steps(c, q),
{
    if q != c {
        let t = toward(c, q);
        lemma_toward(vol, c, planar, q);
        lemma_reached(vol, c, radius, planar, accepted, t);
        assert(accepted.contains(t) && vol.has(q) && near(planar, t, q));
    }
}

/// The squared distance between two voxels of a volume fits in 128 bits.
pub proof fn lemma_dist2_bounds(vol: Volume, c: Idx3d, p: Idx3d)
    requires
        vol.wf(),
        vol.has(c),
        vol.has(p),
    ensures
        0 <= vol.dist2(c, p) <= 0x3_0000_0000 * (0xffff_ffff * 0xffff_ffff),
        vol.dist2(c, p) as u128 == vol.dist2(c, p),
        c == p ==> vol.dist2(c, p) == 0,
{
    lemma_dist2_parts(vol, c, p);
    let wh = sq(vol.height_um as int);
    let wz = sq(vol.z_um as int);
    assert(wh <= 0xffff_ffff * 0xffff_ffff) by (nonlinear_arith)
        requires
            wh == vol.height_um * vol.height_um,
            0 <= vol.height_um <= 0xffff_ffff,
    ;
    assert(wz <= 0xffff_ffff * 0xffff_ffff) by (nonlinear_arith)
        requires
            wz == vol.z_um * vol.z_um,
            0 <= vol.z_um <= 0xffff_ffff,
    ;
    let a = sq(p.0 - c.0);
    let b = sq(p.1 - c.1);
    let d = sq(p.2 - c.2);
    assert(a <= 0x1_0000_0000) by (nonlinear_arith)
        requires
            a == (p.0 - c.0) * (p.0 - c.0),
            -0x1_0000 <= p.0 - c.0 <= 0x1_0000,
    ;
    assert(b <= 0x1_0000_0000) by (nonlinear_arith)
        requires
            b == (p.1 - c.1) * (p.1 - c.1),
            -0x1_0000 <= p.1 - c.1 <= 0x1_0000,
    ;
    assert(d <= 0x1_0000_0000) by (nonlinear_arith)
        requires
            d == (p.2 - c.2) * (p.2 - c.2),
            -0x1_0000 <= p.2 - c.2 <= 0x1_0000,
    ;
    assert(a * wz <= 0x1_0000_0000 * (0xffff_ffff * 0xffff_ffff)) by (nonlinear_arith)
        requires
            0 <= a <= 0x1_0000_0000,
            0 <= wz <= 0xffff_ffff * 0xffff_ffff,
    ;
    assert(b * wh <= 0x1_0000_0000 * (0xffff_ffff * 0xffff_ffff)) by (nonlinear_arith)
        requires
            0 <= b <= 0x1_0000_0000,
            0 <= wh <= 0xffff_ffff * 0xffff_ffff,
    ;
    assert(d * wh <= 0x1_0000_0000 * (0xffff_ffff * 0xffff_ffff)) by (nonlinear_arith)
        requires
            0 <= d <= 0x1_0000_0000,
            0 <= wh <= 0xffff_ffff * 0xffff_ffff,
    ;
    assert(a * wz >= 0 && b * wh >= 0 && d * wh >= 0) by (nonlinear_arith)
        requires
            a >= 0,
            b >= 0,
            d >= 0,
            wz >= 0,
            wh >= 0,
    ;
    if c == p {
        assert(a == 0 && b == 0 && d == 0) by (nonlinear_arith)
            requires
                a == (p.0 - c.0) * (p.0 - c.0),
                b == (p.1 - c.1) * (p.1 - c.1),
                d == (p.2 - c.2) * (p.2 - c.2),
                p.0 - c.0 == 0,
                p.1 - c.1 == 0,
                p.2 - c.2 == 0,
        ;
        assert(a * wz == 0 && b * wh == 0 && d * wh == 0) by (nonlinear_arith)
            requires
                a == 0,
                b == 0,
                d == 0,
        ;
    }
}

/// A volume has finitely many voxels.
pub proof fn lemma_grid_finite(vol: Volume)
    requires
        vol.wf(),
    ensures
        Set::new(|p: Idx3d| vol.has(p)).finite(),
{
    let keys = set_int_range(0, 0x1_0000_0000_0000);
    lemma_int_range(0, 0x1_0000_0000_0000);
    let back = |k: int| widened(pos_of(k as u64));
    keys.lemma_map_finite(back);
    let grid = Set::new(|p: Idx3d| vol.has(p));
    assert forall|p: Idx3d| grid.contains(p) implies keys.map(back).contains(p) by {
        let k = voxel_key(p);
        lemma_key_injective(p, p);
        lemma_key_round_trip(k);
        lemma_key_injective(p, widened(pos_of(k)));
        assert(keys.contains(k as int));
        assert(back(k as int) == p);
    }
    lemma_len_subset(grid, keys.map(back));
}

/// What queueing the neighbours of an accepted voxel does: the queue gains
/// the neighbours that are not on record, and nothing else.
pub open spec fn enqueued(
    vol: Volume,
    c: Idx3d,
    planar: bool,
    keys: Set<u64>,
    before: Multiset<Entry>,
    after: Multiset<Entry>,
    around: Seq<Idx3d>,
    n: int,
) -> bool {
    &&& forall|y: Entry| #[trigger] before.count(y) > 0 ==> after.count(y) > 0
    &&& forall|q: Idx3d|
        #![trigger hit(around, n, q)]
        hit(around, n, q) && !keys.contains(voxel_key(q)) ==> queued(after, vol, c, q)
    &&& forall|y: Entry| #[trigger]
        after.count(y) > 0 ==> before.count(y) > 0 || (hit(around, n, (y.1, y.2, y.3)) && y
            == entry_of(vol, c, (y.1, y.2, y.3)))
}

/// Finds the voxels around one voxel of a volume.
pub struct RoiGenerator<'a> {
    label: &'a CtLabel,
    center: Idx3d,
}

impl<'a> RoiGenerator<'a> {
    /// The volume that is searched.
    pub closed spec fn volume(&self) -> Volume {
        self.label@
    }

    /// The voxel around which it is searched.
    pub closed spec fn origin(&self) -> Idx3d {
        self.center
    }

    /// A search of `label` around `center`.
    pub fn new(label: &'a CtLabel, center: &Idx3d) -> (r: Self)
        ensures
            r.volume() == label@,
            r.origin() == *center,
    {
        RoiGenerator { label, center: *center }
    }

    /// The squared physical distance from the centre to `point`, in square micrometres.
    #[inline]
    fn center_distance_to_squared_3d(&self, point: &Idx3d) -> (d: u128)
        requires
            self.volume().has(self.origin()),
            self.volume().has(*point),
        ensures
            d == self.volume().dist2(self.origin(), *point),
    {
        let _ = self.label.shape();
        let (a, b, c) = idx3d_diff_pow(self.center, *point);
        let hm = self.label.height_um();
        let zm = self.label.z_um();
        proof {
            lemma_weight_bounds((b + c) as u64, hm);
            lemma_weight_bounds(a, zm);
            assert(sq(point.0 - self.center.0) == sq(self.center.0 - point.0)) by (nonlinear_arith);
            assert(sq(point.1 - self.center.1) == sq(self.center.1 - point.1)) by (nonlinear_arith);
            assert(sq(point.2 - self.center.2) == sq(self.center.2 - point.2)) by (nonlinear_arith);
        }
        let wh: u128 = (hm as u128) * (hm as u128);
        let wz: u128 = (zm as u128) * (zm as u128);
        ((b + c) as u128) * wh + (a as u128) * wz
    }

    /// The squared physical distance from the centre to the pixel `point`
    /// of the centre's slice, in square micrometres.
    #[inline]
    fn center_distance_to_squared_2d(&self, point: &Idx2d) -> (d: u128)
        requires
            self.volume().has(self.origin()),
            self.volume().has((self.origin().0, point.0, point.1)),
        ensures
            d == self.volume().dist2(self.origin(), (self.origin().0, point.0, point.1)),
    {
        let _ = self.label.shape();
        let hm = self.label.slice_pixel();
        let _ = self.label.width_um();
        let a = diff_pow(self.center.1, point.0);
        let b = diff_pow(self.center.2, point.1);
        proof {
            lemma_weight_bounds((a + b) as u64, self.label@.height_um);
            assert(sq(point.0 - self.center.1) == sq(self.center.1 - point.0)) by (nonlinear_arith);
            assert(sq(point.1 - self.center.2) == sq(self.center.2 - point.1)) by (nonlinear_arith);
            assert(sq(self.center.0 - self.center.0) * sq(self.label@.z_um as int) == 0)
                by (nonlinear_arith);
            assert((a + b) * (self.label@.height_um * self.label@.height_um) == (self.label@.height_um
                * self.label@.height_um) * (a + b)) by (nonlinear_arith);
        }
        (hm as u128) * ((a + b) as u128)
    }

    /// The entry under which `pos` waits in the queue.
    fn entry(&self, pos: Idx3d, planar: bool) -> (e: Entry)
        requires
            self.volume().wf(),
            self.volume().has(self.origin()),
            self.volume().has(pos),
            planar ==> pos.0 == self.origin().0,
        ensures
            e == entry_of(self.volume(), self.origin(), pos),
            e.0 == self.volume().dist2(self.origin(), pos),
    {
        proof {
            lemma_dist2_bounds(self.volume(), self.origin(), pos);
        }
        let d = if planar {
            self.center_distance_to_squared_2d(&(pos.1, pos.2))
        } else {
            self.center_distance_to_squared_3d(&pos)
        };
        (d, pos.0, pos.1, pos.2)
    }

    /// The voxels within `radius` micrometres of the centre that hold liver,
    /// or liver or tumor if `include_tumor`; each once, in no particular order.
    pub fn extract_roi_3d(&self, radius: u64, include_tumor: bool) -> (ans: Vec<Idx3d>)
        requires
            self.volume().has(self.origin()),
        ensures
            ans@.no_duplicates(),
            ans@.to_set() == self.volume().roi_3d(self.origin(), radius as int, include_tumor),
    {
        let ghost vol = self.volume();
        let ghost c = self.origin();
        let found = self.expand(radius, false);
        let mut ans: Vec<Idx3d> = Vec::with_capacity(64);
        proof {
            assert forall|p: Idx3d| !hit(found@, 0, p) by {}
        }
        let mut i: usize = 0;
        while i < found.len()
            invariant
                vol == self.volume(),
                0 <= i <= found.len(),
                found@.no_duplicates(),
                forall|p: Idx3d| #[trigger] found@.contains(p) ==> vol.has(p),
                ans@.no_duplicates(),
                forall|p: Idx3d|
                    #![trigger ans@.contains(p)]
                    #![trigger hit(found@, i as int, p)]
                    ans@.contains(p) <==> hit(found@, i as int, p) && vol.wanted(include_tumor, p),
            decreases found.len() - i,
        {
            let pos = found[i];
            let ghost before = ans@;
            proof {
                assert(found@.contains(pos));
                if hit(found@, i as int, pos) {
                    let j = choose|j: int| 0 <= j < i && found@[j] == pos;
                    assert(found@[j] == found@[i as int]);
                }
            }
            let keep = match self.label.get(pos) {
                Some(pixel) => is_foreground(include_tumor, pixel),
                None => false,
            };
            if keep {
                ans.push(pos);
                proof {
                    lemma_push_grows(before, pos);
                }
            }
            proof {
                assert forall|p: Idx3d|
                    #![trigger ans@.contains(p)]
                    #![trigger hit(found@, i + 1, p)]
                    ans@.contains(p) <==> hit(found@, i + 1, p) && vol.wanted(
                        include_tumor,
                        p,
                    ) by {
                    lemma_hit_step(found@, i as int, p);
                    assert(before.contains(p) <==> hit(found@, i as int, p) && vol.wanted(
                        include_tumor,
                        p,
                    ));
                }
            }
            i += 1;
        }
        proof {
            assert forall|p: Idx3d|
                ans@.to_set().contains(p) <==> vol.roi_3d(c, radius as int, include_tumor).contains(
                    p,
                ) by {
                lemma_hit_all(found@, p);
                assert(found@.to_set().contains(p) <==> found@.contains(p));
            }
            assert(ans@.to_set() =~= vol.roi_3d(c, radius as int, include_tumor));
        }
        ans
    }

    /// The pixels of the centre's slice within `radius` micrometres of the
    /// centre that hold liver, or liver or tumor if `include_tumor`; each
    /// once, in no particular order.
    pub fn extract_roi_2d(&self, radius: u64, include_tumor: bool) -> (ans: Vec<Idx2d>)
        requires
            self.volume().has(self.origin()),
        ensures
            ans@.no_duplicates(),
            ans@.to_set() == self.volume().roi_2d(self.origin(), radius as int, include_tumor),
    {
        let ghost vol = self.volume();
        let ghost c = self.origin();
        let z = self.center.0;
        let found = self.expand(radius, true);
        let mut ans: Vec<Idx2d> = Vec::with_capacity(32);
        proof {
            assert forall|p: Idx3d| !hit(found@, 0, p) by {}
        }
        let mut i: usize = 0;
        while i < found.len()
            invariant
                vol == self.volume(),
                c == self.origin(),
                z == c.0,
                0 <= i <= found.len(),
                found@.no_duplicates(),
                forall|p: Idx3d| #[trigger] found@.contains(p) ==> vol.has(p) && p.0 == z,
                ans@.no_duplicates(),
                forall|p: Idx2d|
                    #![trigger ans@.contains(p)]
                    #![trigger hit(found@, i as int, (z, p.0, p.1))]
                    ans@.contains(p) <==> hit(found@, i as int, (z, p.0, p.1)) && vol.wanted(
                        include_tumor,
                        (z, p.0, p.1),
                    ),
            decreases found.len() - i,
        {
            let pos = found[i];
            let ghost before = ans@;
            proof {
                assert(found@.contains(pos));
                if hit(found@, i as int, pos) {
                    let j = choose|j: int| 0 <= j < i && found@[j] == pos;
                    assert(found@[j] == found@[i as int]);
                }
            }
            let keep = match self.label.get(pos) {
                Some(pixel) => is_foreground(include_tumor, pixel),
                None => false,
            };
            if keep {
                proof {
                    assert(!before.contains((pos.1, pos.2)));
                }
                ans.push((pos.1, pos.2));
                proof {
                    lemma_push_grows_2d(before, (pos.1, pos.2));
                }
            }
            proof {
                assert forall|p: Idx2d|
                    #![trigger ans@.contains(p)]
                    #![trigger hit(found@, i + 1, (z, p.0, p.1))]
                    ans@.contains(p) <==> hit(found@, i + 1, (z, p.0, p.1)) && vol.wanted(
                        include_tumor,
                        (z, p.0, p.1),
                    ) by {
                    lemma_hit_step(found@, i as int, (z, p.0, p.1));
                    assert(before.contains(p) <==> hit(found@, i as int, (z, p.0, p.1))
                        && vol.wanted(include_tumor, (z, p.0, p.1)));
                }
            }
            i += 1;
        }
        proof {
            assert forall|p: Idx2d|
                ans@.to_set().contains(p) <==> vol.roi_2d(c, radius as int, include_tumor).contains(
                    p,
                ) by {
                lemma_hit_all(found@, (z, p.0, p.1));
                assert(found@.to_set().contains((z, p.0, p.1)) <==> found@.contains(
                    (z, p.0, p.1),
                ));
            }
            assert(ans@.to_set() =~= vol.roi_2d(c, radius as int, include_tumor));
        }
        ans
    }

    /// Floods the volume from the centre, nearest voxel first, as far as
    /// `radius` reaches; inside the centre's slice if `planar`.
    fn expand(&self, radius: u64, planar: bool) -> (ans: Vec<Idx3d>)
        requires
            self.volume().has(self.origin()),
        ensures
            ans@.no_duplicates(),
            forall|p: Idx3d|
                #![trigger ans@.contains(p)]
                #![trigger self.volume().reach(self.origin(), radius as int, planar, p)]
                ans@.contains(p) <==> self.volume().reach(self.origin(), radius as int, planar, p),
    {
        let ghost vol = self.volume();
        let ghost c = self.origin();
        let _ = self.label.shape();
        let ghost grid = Set::new(|p: Idx3d| vol.has(p));
        proof {
            lemma_grid_finite(vol);
            assert(radius * radius <= 0xffff_ffff_ffff_ffff * 0xffff_ffff_ffff_ffff)
                by (nonlinear_arith)
                requires
                    0 <= radius <= 0xffff_ffff_ffff_ffff,
            ;
        }
        let limit: u128 = (radius as u128) * (radius as u128);
        let mut heap = heap_new();
        let first = self.entry(self.center, planar);
        heap_push(&mut heap, first);
        let mut ans: Vec<Idx3d> = Vec::with_capacity(64);
        let mut visited: HashSet<u64> = HashSet::with_capacity(64);
        proof {
            lemma_dist2_bounds(vol, c, c);
            assert(queued(heap_items(heap), vol, c, c));
        }
        loop
            invariant_except_break
                flooding(vol, c, radius as int, planar, ans@, visited@, heap_items(heap)),
            invariant
                vol == self.volume(),
                c == self.origin(),
                vol.wf(),
                vol.has(c),
                limit == radius * radius,
                grid == Set::new(|p: Idx3d| vol.has(p)),
                grid.finite(),
            ensures
                flooded(vol, c, radius as int, planar, ans@),
            decreases grid.difference(ans@.to_set()).len(), heap_items(heap).len(),
        {
            let ghost queue = heap_items(heap);
            let ghost accepted = ans@;
            let popped = heap_pop(&mut heap);
            match popped {
                None => {
                    proof {
                        assert forall|q: Idx3d| !queued(queue, vol, c, q) by {}
                    }
                    break ;
                },
                Some(x) => {
                    let pos = (x.1, x.2, x.3);
                    proof {
                        lemma_dist2_bounds(vol, c, pos);
                        assert(queue.count(x) > 0);
                        assert(x == entry_of(vol, c, pos));
                    }
                    if x.0 > limit {
                        proof {
                            assert forall|p: Idx3d, q: Idx3d|
                                #![trigger accepted.contains(p), near(planar, p, q)]
                                accepted.contains(p) && vol.has(q) && near(
                                    planar,
                                    p,
                                    q,
                                ) implies accepted.contains(q) || vol.dist2(c, q) > radius
                                * radius by {
                                if !accepted.contains(q) {
                                    assert(queued(queue, vol, c, q));
                                    lemma_dist2_bounds(vol, c, q);
                                    assert(entry_le(x, entry_of(vol, c, q)));
                                }
                            }
                            if !accepted.contains(c) {
                                assert(queued(queue, vol, c, c));
                                lemma_dist2_bounds(vol, c, c);
                                assert(entry_le(x, entry_of(vol, c, c)));
                            }
                        }
                        break ;
                    }
                    let key = file(&pos);
                    proof {
                        lemma_key_injective(pos, pos);
                        assert forall|q: Idx3d|
                            queued(queue, vol, c, q) && q != pos implies queued(
                            heap_items(heap),
                            vol,
                            c,
                            q,
                        ) by {}
                    }
                    if !visited.contains(&key) {
                        ans.push(pos);
                        visited.insert(key);
                        let ghost rest = heap_items(heap);
                        self.enqueue_neighbours(&mut heap, &visited, pos, planar);
                        proof {
                            let now = heap_items(heap);
                            lemma_push_grows(accepted, pos);
                            assert(ans@.to_set() =~= accepted.to_set().insert(pos));
                            assert(grid.difference(ans@.to_set()) =~= grid.difference(
                                accepted.to_set(),
                            ).remove(pos));
                            assert(grid.difference(accepted.to_set()).contains(pos));
                            assert forall|p: Idx3d|
                                #![trigger visited@.contains(voxel_key(p))]
                                #![trigger ans@.contains(p)]
                                vol.has(p) implies (visited@.contains(voxel_key(p))
                                <==> ans@.contains(p)) by {
                                lemma_key_injective(p, pos);
                            }
                            assert forall|p: Idx3d, q: Idx3d|
                                #![trigger ans@.contains(p), near(planar, p, q)]
                                ans@.contains(p) && vol.has(q) && near(
                                    planar,
                                    p,
                                    q,
                                ) implies ans@.contains(q) || queued(now, vol, c, q) by {
                                if p == pos {
                                    if !ans@.contains(q) {
                                        assert(!visited@.contains(voxel_key(q)));
                                    }
                                } else {
                                    assert(accepted.contains(p));
                                    if !accepted.contains(q) && q != pos {
                                        assert(queued(queue, vol, c, q));
                                        assert(queued(rest, vol, c, q));
                                    }
                                }
                            }
                            assert forall|y: Entry| #[trigger] now.count(y) > 0 implies vol.has(
                                (y.1, y.2, y.3),
                            ) && (planar ==> y.1 == c.0) && y == entry_of(
                                vol,
                                c,
                                (y.1, y.2, y.3),
                            ) by {
                                if rest.count(y) > 0 {
                                    assert(queue.count(y) > 0);
                                }
                            }
                            if !ans@.contains(c) {
                                assert(queued(queue, vol, c, c));
                                assert(queued(rest, vol, c, c));
                            }
                        }
                    } else {
                        proof {
                            let now = heap_items(heap);
                            assert(accepted.contains(pos));
                            assert forall|p: Idx3d, q: Idx3d|
                                #![trigger accepted.contains(p), near(planar, p, q)]
                                accepted.contains(p) && vol.has(q) && near(
                                    planar,
                                    p,
                                    q,
                                ) implies accepted.contains(q) || queued(now, vol, c, q) by {
                                if !accepted.contains(q) {
                                    assert(queued(queue, vol, c, q));
                                }
                            }
                            assert forall|y: Entry| #[trigger] now.count(y) > 0 implies vol.has(
                                (y.1, y.2, y.3),
                            ) && (planar ==> y.1 == c.0) && y == entry_of(
                                vol,
                                c,
                                (y.1, y.2, y.3),
                            ) by {
                                assert(queue.count(y) > 0);
                            }
                            if !accepted.contains(c) {
                                assert(queued(queue, vol, c, c));
                            }
                        }
                    }
                },
            }
        }
        proof {
            assert forall|p: Idx3d|
                #![trigger ans@.contains(p)]
                #![trigger vol.reach(c, radius as int, planar, p)]
                ans@.contains(p) <==> vol.reach(c, radius as int, planar, p) by {
                if vol.reach(c, radius as int, planar, p) {
                    lemma_reached(vol, c, radius as int, planar, ans@, p);
                }
            }
        }
        ans
    }

    /// Queues the neighbours of `pos` that are not on record.
    fn enqueue_neighbours(
        &self,
        heap: &mut BinaryHeap<Entry, MinComparator>,
        visited: &HashSet<u64>,
        pos: Idx3d,
        planar: bool,
    )
        requires
            self.volume().wf(),
            self.volume().has(self.origin()),
            self.volume().has(pos),
            planar ==> pos.0 == self.origin().0,
        ensures
            forall|y: Entry| #[trigger]
                heap_items(*old(heap)).count(y) > 0 ==> heap_items(*final(heap)).count(y) > 0,
            forall|q: Idx3d|
                #![trigger near(planar, pos, q)]
                self.volume().has(q) && near(planar, pos, q) && !visited@.contains(voxel_key(q))
                    ==> queued(heap_items(*final(heap)), self.volume(), self.origin(), q),
            forall|y: Entry| #[trigger]
                heap_items(*final(heap)).count(y) > 0 ==> heap_items(*old(heap)).count(y) > 0 || (
                self.volume().has((y.1, y.2, y.3)) && (planar ==> y.1 == self.origin().0) && y
                    == entry_of(self.volume(), self.origin(), (y.1, y.2, y.3))),
    {
        let ghost vol = self.volume();
        let ghost c = self.origin();
        let ghost before = heap_items(*heap);
        let around = if planar {
            self.label.neighbours_hw(pos)
        } else {
            self.label.diamond_neighbours(pos)
        };
        proof {
            assert forall|q: Idx3d| #[trigger]
                around@.contains(q) <==> vol.has(q) && near(planar, pos, q) by {
                lemma_hw_neighbours(vol.shape, pos, q);
                lemma_diamond(vol.shape, pos, q);
            }
            assert forall|q: Idx3d| !hit(around@, 0, q) by {}
        }
        let mut i: usize = 0;
        while i < around.len()
            invariant
                vol == self.volume(),
                c == self.origin(),
                vol.wf(),
                vol.has(c),
                0 <= i <= around.len(),
                forall|q: Idx3d| #[trigger]
                    around@.contains(q) ==> vol.has(q) && (planar ==> q.0 == c.0),
                enqueued(
                    vol,
                    c,
                    planar,
                    visited@,
                    before,
                    heap_items(*heap),
                    around@,
                    i as int,
                ),
            decreases around.len() - i,
        {
            let n = around[i];
            let ghost mid = heap_items(*heap);
            proof {
                assert(around@.contains(n));
            }
            let key = file(&n);
            if !visited.contains(&key) {
                let e = self.entry(n, planar);
                heap_push(heap, e);
            }
            proof {
                let now = heap_items(*heap);
                assert forall|q: Idx3d|
                    #![trigger hit(around@, i + 1, q)]
                    hit(around@, i + 1, q) && !visited@.contains(voxel_key(q)) implies queued(
                        now,
                        vol,
                        c,
                        q,
                    ) by {
                    lemma_hit_step(around@, i as int, q);
                    if q != n {
                        assert(queued(mid, vol, c, q));
                    }
                }
                assert forall|y: Entry| #[trigger] now.count(y) > 0 implies before.count(y) > 0
                    || (hit(around@, i + 1, (y.1, y.2, y.3)) && y == entry_of(
                    vol,
                    c,
                    (y.1, y.2, y.3),
                )) by {
                    lemma_hit_step(around@, i as int, (y.1, y.2, y.3));
                    if mid.count(y) > 0 {
                    } else {
                        assert(y == entry_of(vol, c, n));
                    }
                }
            }
            i += 1;
        }
        proof {
            let now = heap_items(*heap);
            assert forall|q: Idx3d|
                #![trigger near(planar, pos, q)]
                vol.has(q) && near(planar, pos, q) && !visited@.contains(
                    voxel_key(q),
                ) implies queued(now, vol, c, q) by {
                lemma_hit_all(around@, q);
                assert(around@.contains(q));
            }
            assert forall|y: Entry| #[trigger] now.count(y) > 0 implies before.count(y) > 0 || (
            vol.has((y.1, y.2, y.3)) && (planar ==> y.1 == c.0) && y == entry_of(
                vol,
                c,
                (y.1, y.2, y.3),
            )) by {
                lemma_hit_all(around@, (y.1, y.2, y.3));
                if before.count(y) == 0 {
                    assert(around@.contains((y.1, y.2, y.3)));
                }
            }
        }
    }
}

} // verus!
