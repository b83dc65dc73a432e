//! The three peripheral centres of a volume and the regions around them.
use crate::Idx2d;
use crate::Idx3d;
use crate::data::CtLabel;
use crate::data::MAX_AXIS;
use crate::data::Volume;
use crate::data::geometry::after;
use crate::data::geometry::before;
use crate::data::geometry::step_down;
use crate::data::geometry::step_up;
use crate::data::morph_3d::roi::RoiGenerator;
use crate::data::sector::AxisDirection;
use crate::data::sector::Orientation;
use crate::data::sector::known_pattern;
use vstd::prelude::*;

verus! {

/// A step of one pixel inside a slice.
#[derive(Copy, Clone, Debug)]
pub enum UnitVec {
    /// Down: towards growing height.
    HeightPos1,
    /// Up: towards shrinking height.
    HeightNeg1,
    /// Right: towards growing width.
    WidthPos1,
    /// Left: towards shrinking width.
    WidthNeg1,
}

/// A share between nothing and all, kept as a fraction.
#[derive(Copy, Clone, Debug)]
pub struct Blend {
    num: u32,
    den: u32,
}

impl Blend {
    #[verifier::type_invariant]
    spec fn well_formed(self) -> bool {
        0 < self.den && self.num <= self.den
    }

    /// The numerator of the fraction.
    pub closed spec fn num(self) -> int {
        self.num as int
    }

    /// The denominator of the fraction.
    pub closed spec fn den(self) -> int {
        self.den as int
    }

    /// The share `num / den`, if that lies between nothing and all.
    pub fn new(num: u32, den: u32) -> (r: Option<Self>)
        ensures
            r is Some <==> 0 < den && num <= den,
            r matches Some(b) ==> b.num() == num && b.den() == den,
    {
        if den == 0 || num > den {
            None
        } else {
            Some(Blend { num, den })
        }
    }

    /// The share of `steps`, rounded to the nearest whole, halves upwards.
    pub open spec fn of(self, steps: int) -> int {
        (2 * steps * self.num() + self.den()) / (2 * self.den())
    }

    /// The share of `steps`, rounded to the nearest whole, halves upwards.
    pub fn apply(&self, steps: usize) -> (r: usize)
        requires
            steps <= MAX_AXIS,
        ensures
            r == self.of(steps as int),
            r <= steps,
            0 < self.den() && 0 <= self.num() <= self.den(),
    {
        proof {
            use_type_invariant(self);
            lemma_share(steps as int, self.num as int, self.den as int);
        }
        let whole: u64 = 2 * (steps as u64) * (self.num as u64) + (self.den as u64);
        (whole / (2 * (self.den as u64))) as usize
    }
}

/// A share of some steps is a number of steps, and no more than there are.
pub proof fn lemma_share(steps: int, num: int, den: int)
    requires
        0 <= steps <= 0x1_0000,
        0 <= num <= den,
        0 < den <= 0xffff_ffff,
    ensures
        0 <= 2 * steps * num + den <= 0x2_0000 * 0xffff_ffff + 0xffff_ffff,
        0 <= (2 * steps * num + den) / (2 * den) <= steps,
{
    assert(0 <= 2 * steps * num <= 2 * steps * den) by (nonlinear_arith)
        requires
            0 <= steps,
            0 <= num <= den,
    ;
    assert(2 * steps * den <= 0x2_0000 * 0xffff_ffff) by (nonlinear_arith)
        requires
            0 <= steps <= 0x1_0000,
            0 < den <= 0xffff_ffff,
    ;
    assert((steps + 1) * (2 * den) == 2 * steps * den + 2 * den) by (nonlinear_arith);
    assert((2 * steps * num + den) / (2 * den) <= steps) by (nonlinear_arith)
        requires
            0 <= 2 * steps * num + den < (steps + 1) * (2 * den),
            den > 0,
            steps >= 0,
    ;
    assert((2 * steps * num + den) / (2 * den) >= 0) by (nonlinear_arith)
        requires
            2 * steps * num + den >= 0,
            den > 0,
    ;
}

/// The voxel one step from `p` in the direction `d`; past the first row or
/// column comes an index that no volume holds.
pub open spec fn advance(p: Idx3d, d: UnitVec) -> Idx3d {
    match d {
        UnitVec::HeightPos1 => (p.0, step_up(p.1), p.2),
        UnitVec::HeightNeg1 => (p.0, step_down(p.1), p.2),
        UnitVec::WidthPos1 => (p.0, p.1, step_up(p.2)),
        UnitVec::WidthNeg1 => (p.0, p.1, step_down(p.2)),
    }
}

/// Where `k` steps in the direction `d` lead from `p`; it need not be an index.
pub open spec fn shift(p: Idx3d, d: UnitVec, k: int) -> (int, int, int) {
    match d {
        UnitVec::HeightPos1 => (p.0 as int, p.1 + k, p.2 as int),
        UnitVec::HeightNeg1 => (p.0 as int, p.1 - k, p.2 as int),
        UnitVec::WidthPos1 => (p.0 as int, p.1 as int, p.2 + k),
        UnitVec::WidthNeg1 => (p.0 as int, p.1 as int, p.2 - k),
    }
}

/// The three directions in which the peripheral centres lie: anterior,
/// posterior and lateral.
pub open spec fn unit_vectors(axis: AxisDirection, o: Orientation) -> (UnitVec, UnitVec, UnitVec) {
    if axis is HeightPos && o is CounterClockwise {
        (UnitVec::HeightPos1, UnitVec::HeightNeg1, UnitVec::WidthNeg1)
    } else if axis is HeightNeg && o is Clockwise {
        (UnitVec::HeightNeg1, UnitVec::HeightPos1, UnitVec::WidthNeg1)
    } else {
        (UnitVec::HeightPos1, UnitVec::HeightNeg1, UnitVec::WidthPos1)
    }
}

impl Volume {
    /// How far the volume still extends from `p` in the direction `d`.
    pub open spec fn margin(self, p: Idx3d, d: UnitVec) -> int {
        if !self.has(p) {
            0
        } else {
            match d {
                UnitVec::HeightPos1 => self.shape.1 - p.1,
                UnitVec::HeightNeg1 => p.1 + 1,
                UnitVec::WidthPos1 => self.shape.2 - p.2,
                UnitVec::WidthNeg1 => p.2 + 1,
            }
        }
    }

    /// The number of foreground voxels in a row that start at `p` and
    /// follow each other in the direction `d`.
    pub open spec fn run(self, p: Idx3d, d: UnitVec) -> int
        decreases self.margin(p, d),
    {
        if self.fg(p) {
            1 + self.run(advance(p, d), d)
        } else {
            0
        }
    }

    /// The peripheral centre that lies in the direction `d` from `from`: the
    /// share `alpha` of the way to the end of the foreground.
    pub open spec fn peripheral_center(self, from: Idx3d, d: UnitVec, alpha: Blend) -> (
        int,
        int,
        int,
    ) {
        shift(from, d, alpha.of(self.run(from, d)))
    }

    /// Whether the peripheral centre in the direction `d` is a voxel of the volume.
    pub open spec fn settles(self, from: Idx3d, d: UnitVec, alpha: Blend) -> bool {
        let c = self.peripheral_center(from, d, alpha);
        0 <= c.0 < self.shape.0 && 0 <= c.1 < self.shape.1 && 0 <= c.2 < self.shape.2
    }

    /// The directions in which the peripheral centres of the volume lie:
    /// anterior, posterior and lateral.
    pub open spec fn directions(self) -> (UnitVec, UnitVec, UnitVec) {
        match self.pattern() {
            Some((axis, o)) => unit_vectors(axis, o),
            None => (UnitVec::HeightPos1, UnitVec::HeightNeg1, UnitVec::WidthPos1),
        }
    }

    /// The peripheral centre in the direction `d` from `from`, as an index.
    pub open spec fn peripheral_voxel(self, from: Idx3d, d: UnitVec, alpha: Blend) -> Idx3d {
        let c = self.peripheral_center(from, d, alpha);
        (c.0 as usize, c.1 as usize, c.2 as usize)
    }

    /// Whether `found` lists, each once, the wanted voxels within `radius`
    /// of the peripheral centre in the direction `d` from `from`.
    pub open spec fn peripheral_region_3d(
        self,
        from: Idx3d,
        d: UnitVec,
        radius: int,
        alpha: Blend,
        include_tumor: bool,
        found: Seq<Idx3d>,
    ) -> bool {
        found.no_duplicates() && found.to_set() == self.roi_3d(
            self.peripheral_voxel(from, d, alpha),
            radius,
            include_tumor,
        )
    }

    /// Whether `found` lists, each once, the wanted pixels within `radius`
    /// of the peripheral centre in the direction `d` from `from`, in its slice.
    pub open spec fn peripheral_region_2d(
        self,
        from: Idx3d,
        d: UnitVec,
        radius: int,
        alpha: Blend,
        include_tumor: bool,
        found: Seq<Idx2d>,
    ) -> bool {
        found.no_duplicates() && found.to_set() == self.roi_2d(
            self.peripheral_voxel(from, d, alpha),
            radius,
            include_tumor,
        )
    }

    /// Whether the orientation of the volume is known and its three
    /// peripheral centres around `from` are voxels of the volume.
    pub open spec fn peripheral_ok(self, from: Idx3d, alpha: Blend) -> bool {
        let dirs = self.directions();
        self.pattern() is Some && self.settles(from, dirs.0, alpha) && self.settles(
            from,
            dirs.1,
            alpha,
        ) && self.settles(from, dirs.2, alpha)
    }
}

/// A row of foreground voxels ends inside the volume.
pub proof fn lemma_run_bounds(vol: Volume, p: Idx3d, d: UnitVec)
    requires
        vol.wf(),
    ensures
        0 <= vol.run(p, d) <= vol.margin(p, d) <= MAX_AXIS,
    decreases vol.margin(p, d),
{
    if vol.fg(p) {
        lemma_run_bounds(vol, advance(p, d), d);
    }
}

impl Volume {
    /// Whether no foreground lies in the first or last row or column of a slice.
    pub open spec fn framed(self) -> bool {
        forall|p: Idx3d| #[trigger]
            self.fg(p) ==> 0 < p.1 && p.1 + 1 < self.shape.1 && 0 < p.2 && p.2 + 1 < self.shape.2
    }

    /// The number of steps from `p` in the direction `d` that stay off the
    /// first and last row and column.
    pub open spec fn room(self, p: Idx3d, d: UnitVec) -> int {
        match d {
            UnitVec::HeightPos1 => self.shape.1 - 1 - p.1,
            UnitVec::HeightNeg1 => p.1 as int,
            UnitVec::WidthPos1 => self.shape.2 - 1 - p.2,
            UnitVec::WidthNeg1 => p.2 as int,
        }
    }
}

/// In a volume without foreground in the first and last rows and columns,
/// a row of foreground voxels ends before them.
pub proof fn lemma_run_framed(vol: Volume, p: Idx3d, d: UnitVec)
    requires
        vol.wf(),
        vol.framed(),
        vol.has(p),
    ensures
        vol.run(p, d) <= vol.room(p, d),
    decreases vol.margin(p, d),
{
    if vol.fg(p) {
        lemma_run_framed(vol, advance(p, d), d);
    }
}

/// In a volume without foreground in the first and last rows and columns,
/// the peripheral centres around a foreground voxel are voxels of the volume.
pub proof fn lemma_framed_settles(vol: Volume, from: Idx3d, alpha: Blend)
    requires
        vol.wf(),
        vol.framed(),
        vol.fg(from),
        vol.pattern() is Some,
        0 < alpha.den() <= u32::MAX,
        0 <= alpha.num() <= alpha.den(),
    ensures
        vol.peripheral_ok(from, alpha),
{
    let dirs = vol.directions();
    lemma_one_settles(vol, from, dirs.0, alpha);
    lemma_one_settles(vol, from, dirs.1, alpha);
    lemma_one_settles(vol, from, dirs.2, alpha);
}

/// In a volume without foreground in the first and last rows and columns,
/// the peripheral centre in one direction is a voxel of the volume.
pub proof fn lemma_one_settles(vol: Volume, from: Idx3d, d: UnitVec, alpha: Blend)
    requires
        vol.wf(),
        vol.framed(),
        vol.has(from),
        0 < alpha.den() <= u32::MAX,
        0 <= alpha.num() <= alpha.den(),
    ensures
        vol.settles(from, d, alpha),
{
    lemma_run_framed(vol, from, d);
    lemma_run_bounds(vol, from, d);
    lemma_share(vol.run(from, d), alpha.num(), alpha.den());
}

impl UnitVec {
    /// The index `k` steps from `data` in this direction.
    #[inline]
    pub fn add_to_k_3d(&self, data: &Idx3d, k: usize) -> (r: Idx3d)
        requires
            shift(*data, *self, k as int).1 >= 0,
            shift(*data, *self, k as int).2 >= 0,
            shift(*data, *self, k as int).1 <= usize::MAX,
            shift(*data, *self, k as int).2 <= usize::MAX,
        ensures
            (r.0 as int, r.1 as int, r.2 as int) == shift(*data, *self, k as int),
    {
        match self {
            UnitVec::HeightPos1 => (data.0, data.1 + k, data.2),
            UnitVec::HeightNeg1 => (data.0, data.1 - k, data.2),
            UnitVec::WidthPos1 => (data.0, data.1, data.2 + k),
            UnitVec::WidthNeg1 => (data.0, data.1, data.2 - k),
        }
    }

    /// The index one step from `pos` in this direction.
    #[inline]
    pub fn step_from(&self, pos: &Idx3d) -> (r: Idx3d)
        ensures
            r == advance(*pos, *self),
    {
        match self {
            UnitVec::HeightPos1 => (pos.0, after(pos.1), pos.2),
            UnitVec::HeightNeg1 => (pos.0, before(pos.1), pos.2),
            UnitVec::WidthPos1 => (pos.0, pos.1, after(pos.2)),
            UnitVec::WidthNeg1 => (pos.0, pos.1, before(pos.2)),
        }
    }
}

impl CtLabel {
    /// The directions in which the three peripheral centres lie, in the
    /// order anterior, posterior, lateral.
    pub fn get_peripheral_unit_vectors(&self) -> (r: [UnitVec; 3])
        requires
            self@.pattern() is Some,
        ensures
            (r[0], r[1], r[2]) == self@.directions(),
            self@.pattern() matches Some((axis, o)) && known_pattern(axis, o),
    {
        match self.lls_sector_pattern() {
            Ok(pattern) => {
                match (pattern.quadrant(), pattern.orientation()) {
                    (AxisDirection::HeightPos, Orientation::CounterClockwise) => [
                        UnitVec::HeightPos1,
                        UnitVec::HeightNeg1,
                        UnitVec::WidthNeg1,
                    ],
                    (AxisDirection::HeightNeg, Orientation::Clockwise) => [
                        UnitVec::HeightNeg1,
                        UnitVec::HeightPos1,
                        UnitVec::WidthNeg1,
                    ],
                    _ => [UnitVec::HeightPos1, UnitVec::HeightNeg1, UnitVec::WidthPos1],
                }
            },
            Err(_) => {
                proof {
                    assert(false);
                }
                [UnitVec::HeightPos1, UnitVec::HeightNeg1, UnitVec::WidthPos1]
            },
        }
    }

    /// The number of foreground voxels in a row from `from` in the direction `direction`.
    pub fn foreground_run(&self, from: &Idx3d, direction: UnitVec) -> (step: usize)
        ensures
            step == self@.run(*from, direction),
            step <= MAX_AXIS,
    {
        let ghost vol = self@;
        let _ = self.shape();
        let mut snake = *from;
        let mut step: usize = 0;
        proof {
            lemma_run_bounds(vol, snake, direction);
        }
        while self.is_foreground_at(snake)
            invariant
                vol == self@,
                vol.wf(),
                vol.run(*from, direction) == step + vol.run(snake, direction),
                0 <= vol.run(snake, direction) <= vol.margin(snake, direction) <= MAX_AXIS,
                0 <= step,
                step + vol.run(snake, direction) <= MAX_AXIS,
            decreases vol.margin(snake, direction),
        {
            proof {
                lemma_run_bounds(vol, advance(snake, direction), direction);
            }
            snake = direction.step_from(&snake);
            step += 1;
        }
        step
    }

    /// The peripheral centre that lies in the direction `direction` from `from`.
    pub fn get_peripheral_center_3d(&self, from: &Idx3d, direction: UnitVec, alpha: Blend) -> (r:
        Idx3d)
        requires
            self@.has(*from),
            self@.peripheral_center(*from, direction, alpha).1 >= 0,
            self@.peripheral_center(*from, direction, alpha).2 >= 0,
        ensures
            (r.0 as int, r.1 as int, r.2 as int) == self@.peripheral_center(
                *from,
                direction,
                alpha,
            ),
    {
        let _ = self.shape();
        let step = self.foreground_run(from, direction);
        let k = alpha.apply(step);
        direction.add_to_k_3d(from, k)
    }

    /// Whether the orientation of the volume is known and the three
    /// peripheral centres around `center` are voxels of the volume.
    pub fn peripheral_fits(&self, center: Idx3d, alpha: Blend) -> (r: bool)
        ensures
            r == (self@.has(center) && self@.peripheral_ok(center, alpha)),
    {
        if !self.check(&center) {
            return false;
        }
        match self.lls_sector_pattern() {
            Err(_) => false,
            Ok(_) => {
                let dirs = self.get_peripheral_unit_vectors();
                self.settles(&center, dirs[0], alpha) && self.settles(&center, dirs[1], alpha)
                    && self.settles(&center, dirs[2], alpha)
            },
        }
    }

    /// Whether the peripheral centre in the direction `direction` from the
    /// voxel `from` is a voxel of the volume.
    fn settles(&self, from: &Idx3d, direction: UnitVec, alpha: Blend) -> (r: bool)
        requires
            self@.has(*from),
        ensures
            r == self@.settles(*from, direction, alpha),
    {
        let (_, hs, ws) = self.shape();
        let step = self.foreground_run(from, direction);
        let k = alpha.apply(step);
        match direction {
            UnitVec::HeightPos1 => from.1 + k < hs,
            UnitVec::HeightNeg1 => k <= from.1,
            UnitVec::WidthPos1 => from.2 + k < ws,
            UnitVec::WidthNeg1 => k <= from.2,
        }
    }

    /// The three peripheral centres around `center`: anterior, posterior, lateral.
    pub fn peripheral_centers(&self, center: Idx3d, alpha: Blend) -> (r: [Idx3d; 3])
        requires
            self@.has(center),
            self@.peripheral_ok(center, alpha),
        ensures
            ({
                let dirs = self@.directions();
                &&& (r[0].0 as int, r[0].1 as int, r[0].2 as int) == self@.peripheral_center(
                    center,
                    dirs.0,
                    alpha,
                )
                &&& (r[1].0 as int, r[1].1 as int, r[1].2 as int) == self@.peripheral_center(
                    center,
                    dirs.1,
                    alpha,
                )
                &&& (r[2].0 as int, r[2].1 as int, r[2].2 as int) == self@.peripheral_center(
                    center,
                    dirs.2,
                    alpha,
                )
            }),
            self@.has(r[0]),
            self@.has(r[1]),
            self@.has(r[2]),
    {
        let dirs = self.get_peripheral_unit_vectors();
        let c1 = self.get_peripheral_center_3d(&center, dirs[0], alpha);
        let c2 = self.get_peripheral_center_3d(&center, dirs[1], alpha);
        let c3 = self.get_peripheral_center_3d(&center, dirs[2], alpha);
        [c1, c2, c3]
    }

    /// The three peripheral regions of the liver: the voxels within
    /// `radius` micrometres of the anterior, the posterior and the lateral
    /// peripheral centre, which lie the share `alpha` of the way from the
    /// morphological centre to the end of the foreground.  Without
    /// foreground the three regions are empty.
    pub fn peripheral_roi_3d(
        &self,
        radius: u64,
        alpha: Blend,
        anisotropic: bool,
        include_tumor: bool,
    ) -> (r: [Vec<Idx3d>; 3])
        requires
            self@.center(anisotropic) matches Some(c) ==> self@.peripheral_ok(c, alpha),
        ensures
            match self@.center(anisotropic) {
                Some(c) => {
                    let dirs = self@.directions();
                    &&& self@.peripheral_region_3d(
                        c,
                        dirs.0,
                        radius as int,
                        alpha,
                        include_tumor,
                        r[0]@,
                    )
                    &&& self@.peripheral_region_3d(
                        c,
                        dirs.1,
                        radius as int,
                        alpha,
                        include_tumor,
                        r[1]@,
                    )
                    &&& self@.peripheral_region_3d(
                        c,
                        dirs.2,
                        radius as int,
                        alpha,
                        include_tumor,
                        r[2]@,
                    )
                },
                None => r[0]@.len() == 0 && r[1]@.len() == 0 && r[2]@.len() == 0,
            },
    {
        match self.center(anisotropic) {
            Some(center) => self.get_three_circle_3d(center, radius, alpha, include_tumor),
            None => [Vec::new(), Vec::new(), Vec::new()],
        }
    }

    /// The three peripheral regions around the foreground voxel `center`.
    pub fn peripheral_roi_3d_with_center(
        &self,
        center: Idx3d,
        radius: u64,
        alpha: Blend,
        include_tumor: bool,
    ) -> (r: [Vec<Idx3d>; 3])
        requires
            self@.fg(center),
            self@.peripheral_ok(center, alpha),
        ensures
            ({
                let dirs = self@.directions();
                &&& self@.peripheral_region_3d(
                    center,
                    dirs.0,
                    radius as int,
                    alpha,
                    include_tumor,
                    r[0]@,
                )
                &&& self@.peripheral_region_3d(
                    center,
                    dirs.1,
                    radius as int,
                    alpha,
                    include_tumor,
                    r[1]@,
                )
                &&& self@.peripheral_region_3d(
                    center,
                    dirs.2,
                    radius as int,
                    alpha,
                    include_tumor,
                    r[2]@,
                )
            }),
    {
        self.get_three_circle_3d(center, radius, alpha, include_tumor)
    }

    /// The regions around the three peripheral centres of `center`.
    #[inline]
    fn get_three_circle_3d(
        &self,
        center: Idx3d,
        radius: u64,
        alpha: Blend,
        include_tumor: bool,
    ) -> (r: [Vec<Idx3d>; 3])
        requires
            self@.has(center),
            self@.peripheral_ok(center, alpha),
        ensures
            ({
                let dirs = self@.directions();
                &&& self@.peripheral_region_3d(
                    center,
                    dirs.0,
                    radius as int,
                    alpha,
                    include_tumor,
                    r[0]@,
                )
                &&& self@.peripheral_region_3d(
                    center,
                    dirs.1,
                    radius as int,
                    alpha,
                    include_tumor,
                    r[1]@,
                )
                &&& self@.peripheral_region_3d(
                    center,
                    dirs.2,
                    radius as int,
                    alpha,
                    include_tumor,
                    r[2]@,
                )
            }),
    {
        let centers = self.peripheral_centers(center, alpha);
        let a = self.collect_liver_circle_3d(&centers[0], radius, include_tumor);
        let b = self.collect_liver_circle_3d(&centers[1], radius, include_tumor);
        let c = self.collect_liver_circle_3d(&centers[2], radius, include_tumor);
        [a, b, c]
    }

    /// The wanted voxels within `radius` micrometres of `center`.
    fn collect_liver_circle_3d(&self, center: &Idx3d, radius: u64, include_tumor: bool) -> (r:
        Vec<Idx3d>)
        requires
            self@.has(*center),
        ensures
            r@.no_duplicates(),
            r@.to_set() == self@.roi_3d(*center, radius as int, include_tumor),
    {
        RoiGenerator::new(self, center).extract_roi_3d(radius, include_tumor)
    }

    /// The three peripheral regions of the liver inside the slice of its
    /// morphological centre, with the index of that slice: the pixels
    /// within `radius` micrometres of the anterior, the posterior and the
    /// lateral peripheral centre.  Without foreground the slice is
    /// `usize::MAX` and the three regions are empty.
    pub fn peripheral_roi_2d(
        &self,
        radius: u64,
        alpha: Blend,
        anisotropic: bool,
        include_tumor: bool,
    ) -> (r: (usize, [Vec<Idx2d>; 3]))
        requires
            self@.center(anisotropic) matches Some(c) ==> self@.peripheral_ok(c, alpha),
        ensures
            match self@.center(anisotropic) {
                Some(c) => {
                    let dirs = self@.directions();
                    &&& r.0 == c.0
                    &&& self@.peripheral_region_2d(
                        c,
                        dirs.0,
                        radius as int,
                        alpha,
                        include_tumor,
                        r.1[0]@,
                    )
                    &&& self@.peripheral_region_2d(
                        c,
                        dirs.1,
                        radius as int,
                        alpha,
                        include_tumor,
                        r.1[1]@,
                    )
                    &&& self@.peripheral_region_2d(
                        c,
                        dirs.2,
                        radius as int,
                        alpha,
                        include_tumor,
                        r.1[2]@,
                    )
                },
                None => r.0 == usize::MAX && r.1[0]@.len() == 0 && r.1[1]@.len() == 0
                    && r.1[2]@.len() == 0,
            },
    {
        match self.center(anisotropic) {
            Some(center) => (
                center.0,
                self.get_three_circle_2d(center, radius, alpha, include_tumor),
            ),
            None => (usize::MAX, [Vec::new(), Vec::new(), Vec::new()]),
        }
    }

    /// The three peripheral regions around the foreground voxel `center`,
    /// inside its slice.
    pub fn peripheral_roi_2d_with_center(
        &self,
        center: Idx3d,
        radius: u64,
        alpha: Blend,
        include_tumor: bool,
    ) -> (r: [Vec<Idx2d>; 3])
        requires
            self@.fg(center),
            self@.peripheral_ok(center, alpha),
        ensures
            ({
                let dirs = self@.directions();
                &&& self@.peripheral_region_2d(
                    center,
                    dirs.0,
                    radius as int,
                    alpha,
                    include_tumor,
                    r[0]@,
                )
                &&& self@.peripheral_region_2d(
                    center,
                    dirs.1,
                    radius as int,
                    alpha,
                    include_tumor,
                    r[1]@,
                )
                &&& self@.peripheral_region_2d(
                    center,
                    dirs.2,
                    radius as int,
                    alpha,
                    include_tumor,
                    r[2]@,
                )
            }),
    {
        self.get_three_circle_2d(center, radius, alpha, include_tumor)
    }

    /// The regions around the three peripheral centres of `center`, inside its slice.
    #[inline]
    fn get_three_circle_2d(
        &self,
        center: Idx3d,
        radius: u64,
        alpha: Blend,
        include_tumor: bool,
    ) -> (r: [Vec<Idx2d>; 3])
        requires
            self@.has(center),
            self@.peripheral_ok(center, alpha),
        ensures
            ({
                let dirs = self@.directions();
                &&& self@.peripheral_region_2d(
                    center,
                    dirs.0,
                    radius as int,
                    alpha,
                    include_tumor,
                    r[0]@,
                )
                &&& self@.peripheral_region_2d(
                    center,
                    dirs.1,
                    radius as int,
                    alpha,
                    include_tumor,
                    r[1]@,
                )
                &&& self@.peripheral_region_2d(
                    center,
                    dirs.2,
                    radius as int,
                    alpha,
                    include_tumor,
                    r[2]@,
                )
            }),
    {
        let centers = self.peripheral_centers(center, alpha);
        let a = self.collect_liver_circle_2d(&centers[0], radius, include_tumor);
        let b = self.collect_liver_circle_2d(&centers[1], radius, include_tumor);
        let c = self.collect_liver_circle_2d(&centers[2], radius, include_tumor);
        [a, b, c]
    }

    /// The wanted pixels of the slice of `center` within `radius` micrometres of `center`.
    fn collect_liver_circle_2d(&self, center: &Idx3d, radius: u64, include_tumor: bool) -> (r:
        Vec<Idx2d>)
        requires
            self@.has(*center),
        ensures
            r@.no_duplicates(),
            r@.to_set() == self@.roi_2d(*center, radius as int, include_tumor),
    {
        RoiGenerator::new(self, center).extract_roi_2d(radius, include_tumor)
    }
}

} // verus!
