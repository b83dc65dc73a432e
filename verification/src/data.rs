//! Labelled volumes and the operations on them.
use crate::Idx2d;
use crate::Idx3d;
use crate::consts::gray::is_liver_or_tumor;
use crate::consts::gray::liver_or_tumor;
use crate::data::geometry::after;
use crate::data::geometry::before;
use crate::data::geometry::diamond;
use crate::data::geometry::hw_neighbours;
use crate::data::geometry::keep;
use crate::data::geometry::z_neighbours;
use crate::data::grid::LabelGrid;
use crate::data::grid::grid_cells;
use crate::data::grid::grid_dim;
use crate::data::grid::grid_from_vec;
use crate::data::grid::grid_get;
use crate::data::grid::grid_set;
use crate::data::grid::grid_shape;
use crate::data::grid::row_major;
use crate::data::grid::shape_fits;
use crate::data::grid::within;
use crate::data::sector::Header;
use crate::data::sector::InitLlsPatternError;
use crate::data::sector::LlsSectorPattern;
use crate::data::sector::pattern_of;
use vstd::prelude::*;

pub mod census;
pub mod edit;
pub mod geometry;
pub mod grid;
pub mod lists;
pub mod morph_3d;
pub mod sector;
pub mod slice;

verus! {

/// The longest axis that a volume can have: indices are kept in 16 bits.
pub const MAX_AXIS: usize = 0x1_0000;

/// What a labelled volume is: a grid of labels, the physical size of one
/// voxel in micrometres, and the orientation codes of its header.
pub struct Volume {
    /// Lengths of the slice, height and width axes.
    pub shape: Idx3d,
    /// The label of every voxel of the grid.
    pub labels: Map<Idx3d, u8>,
    /// Distance between two slices.
    pub z_um: u32,
    /// Height of a voxel inside a slice.
    pub height_um: u32,
    /// Width of a voxel inside a slice.
    pub width_um: u32,
    /// The `qform_code` of the header.
    pub qform_code: i16,
    /// The quaternion `(b, c, d)` of the header, when its components are integers.
    pub quatern: Option<(i8, i8, i8)>,
}

impl Volume {
    /// What every volume satisfies: no axis is longer than [`MAX_AXIS`], the
    /// voxels can be counted, every spacing is positive, and a voxel is as
    /// wide as it is high.
    pub open spec fn wf(self) -> bool {
        &&& self.shape.0 <= MAX_AXIS
        &&& self.shape.1 <= MAX_AXIS
        &&& self.shape.2 <= MAX_AXIS
        &&& self.shape.0 * self.shape.1 * self.shape.2 <= usize::MAX
        &&& self.z_um > 0
        &&& self.height_um > 0
        &&& self.width_um == self.height_um
    }

    /// Whether `p` is a voxel of the volume.
    pub open spec fn has(self, p: Idx3d) -> bool {
        within(self.shape, p)
    }

    /// Whether `p` is a voxel of the volume that holds liver or tumor.
    pub open spec fn fg(self, p: Idx3d) -> bool {
        self.has(p) && liver_or_tumor(self.labels[p])
    }

    /// Whether `p` is a voxel of the volume that holds neither liver nor tumor.
    pub open spec fn bg(self, p: Idx3d) -> bool {
        self.has(p) && !liver_or_tumor(self.labels[p])
    }

    /// The voxels that hold liver or tumor.
    pub open spec fn foreground(self) -> Set<Idx3d> {
        Set::new(|p: Idx3d| self.fg(p))
    }

    /// What the header of the volume holds.
    pub open spec fn header(self) -> Header {
        Header {
            pix_dim: [self.width_um, self.height_um, self.z_um],
            qform_code: self.qform_code,
            quatern: self.quatern,
        }
    }

    /// The orientation of the volume, as far as its header tells it.
    pub open spec fn pattern(self) -> Option<(sector::AxisDirection, sector::Orientation)> {
        match self.quatern {
            Some(q) => pattern_of(self.qform_code, q),
            None => None,
        }
    }
}

/// Whether a volume can be made of these parts; `pix_dim` holds the width,
/// height and slice distance of a voxel.
pub open spec fn valid_parts(shape: Idx3d, len: nat, pix_dim: [u32; 3]) -> bool {
    &&& shape_fits(shape, len)
    &&& shape.0 <= MAX_AXIS
    &&& shape.1 <= MAX_AXIS
    &&& shape.2 <= MAX_AXIS
    &&& pix_dim[0] == pix_dim[1]
    &&& pix_dim[1] > 0
    &&& pix_dim[2] > 0
}

/// The volume that is made of these parts.
pub open spec fn volume_of(
    shape: Idx3d,
    labels: Seq<u8>,
    pix_dim: [u32; 3],
    qform_code: i16,
    quatern: Option<(i8, i8, i8)>,
) -> Volume {
    Volume {
        shape,
        labels: Map::new(|p: Idx3d| within(shape, p), |p: Idx3d| labels[row_major(shape, p)]),
        z_um: pix_dim[2],
        height_um: pix_dim[1],
        width_um: pix_dim[0],
        qform_code,
        quatern,
    }
}

/// A labelled three-dimensional scan.
pub struct CtLabel {
    data: LabelGrid,
    z_um: u32,
    height_um: u32,
    width_um: u32,
    qform_code: i16,
    quatern: Option<(i8, i8, i8)>,
    faked: bool,
}

impl View for CtLabel {
    type V = Volume;

    closed spec fn view(&self) -> Volume {
        Volume {
            shape: grid_dim(self.data),
            labels: Map::new(
                |p: Idx3d| within(grid_dim(self.data), p),
                |p: Idx3d| grid_cells(self.data)[p],
            ),
            z_um: self.z_um,
            height_um: self.height_um,
            width_um: self.width_um,
            qform_code: self.qform_code,
            quatern: self.quatern,
        }
    }
}

impl CtLabel {
    #[verifier::type_invariant]
    spec fn well_formed(self) -> bool {
        self@.wf()
    }

    /// Whether the volume was put together by hand.
    pub closed spec fn faked(self) -> bool {
        self.faked
    }

    fn assemble(
        shape: Idx3d,
        labels: Vec<u8>,
        pix_dim: [u32; 3],
        qform_code: i16,
        quatern: Option<(i8, i8, i8)>,
        faked: bool,
    ) -> (r: Option<Self>)
        ensures
            r is Some <==> valid_parts(shape, labels@.len(), pix_dim),
            r is Some ==> r->0@ == volume_of(shape, labels@, pix_dim, qform_code, quatern),
            r is Some ==> r->0.faked() == faked,
    {
        if shape.0 > MAX_AXIS || shape.1 > MAX_AXIS || shape.2 > MAX_AXIS {
            return None;
        }
        if pix_dim[0] != pix_dim[1] || pix_dim[1] == 0 || pix_dim[2] == 0 {
            return None;
        }
        let ghost cells = labels@;
        let count = labels.len();
        match grid_from_vec(shape, labels) {
            None => None,
            Some(data) => {
                proof {
                    assert(shape.0 * shape.1 * shape.2 == count);
                }
                let label = CtLabel {
                    data,
                    z_um: pix_dim[2],
                    height_um: pix_dim[1],
                    width_um: pix_dim[0],
                    qform_code,
                    quatern,
                    faked,
                };
                proof {
                    assert(label@.labels =~= volume_of(
                        shape,
                        cells,
                        pix_dim,
                        qform_code,
                        quatern,
                    ).labels);
                }
                Some(label)
            },
        }
    }

    /// Builds a volume from the labels of its voxels in row-major order
    /// (slice, height, width), the size `[width, height, slice distance]` of a
    /// voxel in micrometres, and the orientation codes of its header.
    ///
    /// Returns `None` when the parts do not make a volume: the number of
    /// labels is not that of the shape, an axis is longer than [`MAX_AXIS`],
    /// a spacing is zero, or a voxel is not as wide as it is high.
    pub fn new(
        shape: Idx3d,
        labels: Vec<u8>,
        pix_dim: [u32; 3],
        qform_code: i16,
        quatern: Option<(i8, i8, i8)>,
    ) -> (r: Option<Self>)
        ensures
            r is Some <==> valid_parts(shape, labels@.len(), pix_dim),
            r is Some ==> r->0@ == volume_of(shape, labels@, pix_dim, qform_code, quatern),
            r is Some ==> !r->0.faked(),
    {
        Self::assemble(shape, labels, pix_dim, qform_code, quatern, false)
    }

    /// Builds a volume by hand, as [`CtLabel::new`] does, and marks it as such.
    pub fn fake(
        shape: Idx3d,
        labels: Vec<u8>,
        pix_dim: [u32; 3],
        qform_code: i16,
        quatern_bcd: (i8, i8, i8),
    ) -> (r: Option<Self>)
        ensures
            r is Some <==> valid_parts(shape, labels@.len(), pix_dim),
            r is Some ==> r->0@ == volume_of(
                shape,
                labels@,
                pix_dim,
                qform_code,
                Some(quatern_bcd),
            ),
            r is Some ==> r->0.faked(),
    {
        Self::assemble(shape, labels, pix_dim, qform_code, Some(quatern_bcd), true)
    }

    /// Builds a volume by hand from the labels of its voxels in row-major
    /// order and a header, and marks it as built by hand.
    #[inline]
    pub fn fake_with_header(header: &Header, shape: Idx3d, labels: Vec<u8>) -> (r: Option<Self>)
        ensures
            r is Some <==> valid_parts(shape, labels@.len(), header.pix_dim),
            r is Some ==> r->0@ == volume_of(
                shape,
                labels@,
                header.pix_dim,
                header.qform_code,
                header.quatern,
            ),
            r is Some ==> r->0.faked(),
    {
        Self::assemble(shape, labels, header.pix_dim, header.qform_code, header.quatern, true)
    }

    /// What the header of the volume holds.
    pub fn header(&self) -> (r: Header)
        ensures
            r.pix_dim@ == self@.header().pix_dim@,
            r.qform_code == self@.qform_code,
            r.quatern == self@.quatern,
    {
        Header {
            pix_dim: [self.width_um, self.height_um, self.z_um],
            qform_code: self.qform_code,
            quatern: self.quatern,
        }
    }

    /// Puts `label` at the voxel `pos`.
    pub fn set(&mut self, pos: Idx3d, label: u8)
        requires
            old(self)@.has(pos),
        ensures
            final(self)@ == (Volume { labels: old(self)@.labels.insert(pos, label), ..old(self)@ }),
    {
        proof {
            use_type_invariant(&*self);
        }
        grid_set(&mut self.data, pos, label);
        proof {
            assert(self@.labels =~= old(self)@.labels.insert(pos, label));
        }
    }

    /// Whether the volume was put together by [`CtLabel::fake`].
    pub fn is_faked(&self) -> (r: bool)
        ensures
            r == self.faked(),
    {
        self.faked
    }

    /// Lengths of the slice, height and width axes.
    #[inline]
    pub fn shape(&self) -> (r: Idx3d)
        ensures
            r == self@.shape,
            self@.wf(),
    {
        proof {
            use_type_invariant(self);
        }
        grid_shape(&self.data)
    }

    /// Lengths of the height and width axes.
    #[inline]
    pub fn slice_shape(&self) -> (r: Idx2d)
        ensures
            r == (self@.shape.1, self@.shape.2),
    {
        let (_, h, w) = self.shape();
        (h, w)
    }

    /// Number of slices.
    #[inline]
    pub fn len_z(&self) -> (r: usize)
        ensures
            r == self@.shape.0,
    {
        self.shape().0
    }

    /// Number of voxels.
    #[inline]
    pub fn size(&self) -> (r: usize)
        ensures
            r == self@.shape.0 * self@.shape.1 * self@.shape.2,
    {
        let (z, h, w) = self.shape();
        if h == 0 || w == 0 {
            proof {
                assert(z * h * w == 0) by (nonlinear_arith)
                    requires
                        h == 0 || w == 0,
                ;
            }
            return 0;
        }
        proof {
            lemma_product_bounds(z, h, w);
        }
        z * h * w
    }

    /// Whether `pos` is a voxel of the volume.
    #[inline]
    pub fn check(&self, pos: &Idx3d) -> (r: bool)
        ensures
            r == self@.has(*pos),
    {
        let (z, h, w) = self.shape();
        pos.0 < z && pos.1 < h && pos.2 < w
    }

    /// The label at `pos`, or `None` when `pos` is no voxel of the volume.
    #[inline]
    pub fn get(&self, pos: Idx3d) -> (r: Option<u8>)
        ensures
            r == (if self@.has(pos) {
                Some(self@.labels[pos])
            } else {
                None
            }),
            self@.wf(),
    {
        proof {
            use_type_invariant(self);
        }
        grid_get(&self.data, pos)
    }

    /// Whether `pos` is a voxel of the volume that holds liver or tumor.
    #[inline]
    pub fn is_foreground_at(&self, pos: Idx3d) -> (r: bool)
        ensures
            r == self@.fg(pos),
    {
        match self.get(pos) {
            Some(p) => is_liver_or_tumor(p),
            None => false,
        }
    }

    /// Size of a voxel in micrometres: slice distance, height, width.
    #[inline]
    pub fn pix_dim(&self) -> (r: [u32; 3])
        ensures
            r[0] == self@.z_um,
            r[1] == self@.height_um,
            r[2] == self@.width_um,
    {
        [self.z_um, self.height_um, self.width_um]
    }

    /// Width of a voxel in micrometres.
    #[inline]
    pub fn width_um(&self) -> (r: u32)
        ensures
            r == self@.width_um,
            self@.wf(),
    {
        proof {
            use_type_invariant(self);
        }
        self.width_um
    }

    /// Height of a voxel in micrometres.
    #[inline]
    pub fn height_um(&self) -> (r: u32)
        ensures
            r == self@.height_um,
            self@.wf(),
    {
        proof {
            use_type_invariant(self);
        }
        self.height_um
    }

    /// Distance between two slices in micrometres.
    #[inline]
    pub fn z_um(&self) -> (r: u32)
        ensures
            r == self@.z_um,
            self@.wf(),
    {
        proof {
            use_type_invariant(self);
        }
        self.z_um
    }

    /// Whether a voxel is higher than the slices are apart.
    #[inline]
    pub fn is_height_greater(&self) -> (r: bool)
        ensures
            r == (self@.height_um > self@.z_um),
    {
        self.height_um > self.z_um
    }

    /// Whether the slices are further apart than a voxel is high.
    #[inline]
    pub fn is_z_greater(&self) -> (r: bool)
        ensures
            r == (self@.z_um > self@.height_um),
    {
        self.z_um > self.height_um
    }

    /// Whether a voxel has the same size along all three axes.
    #[inline]
    pub fn is_isotropic(&self) -> (r: bool)
        ensures
            r == (self@.z_um == self@.height_um && self@.z_um == self@.width_um),
    {
        self.z_um == self.height_um && self.z_um == self.width_um
    }

    /// Area of a pixel of a slice in square micrometres.
    #[inline]
    pub fn slice_pixel(&self) -> (r: u64)
        ensures
            r == self@.height_um * self@.width_um,
    {
        proof {
            lemma_area_bounds(self.height_um, self.width_um);
        }
        (self.height_um as u64) * (self.width_um as u64)
    }

    /// The orientation of the left lateral segment in this volume.
    ///
    /// Fails with `NotAxisVector` when the quaternion of the header has a
    /// component that is no integer, and with `Unknown` when the combination
    /// of codes is not one of the known ones.
    pub fn lls_sector_pattern(&self) -> (r: Result<LlsSectorPattern, InitLlsPatternError>)
        ensures
            match r {
                Ok(p) => self@.pattern() == Some((p.axis(), p.sense())),
                Err(InitLlsPatternError::NotAxisVector) => self@.quatern is None,
                Err(InitLlsPatternError::Unknown(c, q)) => self@.quatern == Some(q) && c
                    == self@.qform_code && self@.pattern() is None,
            },
    {
        LlsSectorPattern::from_header(&self.header())
    }

    fn check_push(&self, out: &mut Vec<Idx3d>, pos: Idx3d)
        ensures
            final(out)@ == old(out)@ + keep(self@.shape, pos),
    {
        if self.check(&pos) {
            out.push(pos);
            proof {
                assert(out@ =~= old(out)@ + keep(self@.shape, pos));
            }
        } else {
            proof {
                assert(out@ =~= old(out)@ + keep(self@.shape, pos));
            }
        }
    }

    /// The voxels one step before and after `pos` along each of the three axes.
    pub fn diamond_neighbours(&self, pos: Idx3d) -> (r: Vec<Idx3d>)
        ensures
            r@ == diamond(self@.shape, pos),
    {
        let (z, h, w) = pos;
        let mut out: Vec<Idx3d> = Vec::new();
        self.check_push(&mut out, (before(z), h, w));
        self.check_push(&mut out, (after(z), h, w));
        self.check_push(&mut out, (z, before(h), w));
        self.check_push(&mut out, (z, after(h), w));
        self.check_push(&mut out, (z, h, before(w)));
        self.check_push(&mut out, (z, h, after(w)));
        proof {
            assert(out@ =~= diamond(self@.shape, pos));
        }
        out
    }

    /// The voxels one slice before and after `pos`.
    pub fn neighbours_z(&self, pos: Idx3d) -> (r: Vec<Idx3d>)
        ensures
            r@ == z_neighbours(self@.shape, pos),
    {
        let (z, h, w) = pos;
        let mut out: Vec<Idx3d> = Vec::new();
        self.check_push(&mut out, (before(z), h, w));
        self.check_push(&mut out, (after(z), h, w));
        proof {
            assert(out@ =~= z_neighbours(self@.shape, pos));
        }
        out
    }

    /// The voxels one step away from `pos` inside its slice.
    pub fn neighbours_hw(&self, pos: Idx3d) -> (r: Vec<Idx3d>)
        ensures
            r@ == hw_neighbours(self@.shape, pos),
    {
        let (z, h, w) = pos;
        let mut out: Vec<Idx3d> = Vec::new();
        self.check_push(&mut out, (z, before(h), w));
        self.check_push(&mut out, (z, after(h), w));
        self.check_push(&mut out, (z, h, before(w)));
        self.check_push(&mut out, (z, h, after(w)));
        proof {
            assert(out@ =~= hw_neighbours(self@.shape, pos));
        }
        out
    }
}

/// The number of voxels of a grid whose axes are no longer than [`MAX_AXIS`]
/// is the product of its axes, taken in any grouping.
pub proof fn lemma_product_bounds(z: usize, h: usize, w: usize)
    requires
        z * h * w <= usize::MAX,
    ensures
        h > 0 && w > 0 ==> z * h <= usize::MAX,
        z * h * w == (z * h) * w,
{
    if h > 0 && w > 0 {
        assert(z * h <= (z * h) * w) by (nonlinear_arith)
            requires
                w >= 1,
                z * h >= 0,
        ;
    }
}

/// The area of a pixel fits in 64 bits.
pub proof fn lemma_area_bounds(h: u32, w: u32)
    ensures
        h * w <= u64::MAX,
{
    assert(h * w <= 0xffff_ffff * 0xffff_ffff) by (nonlinear_arith)
        requires
            0 <= h <= 0xffff_ffff,
            0 <= w <= 0xffff_ffff,
    ;
}

} // verus!
