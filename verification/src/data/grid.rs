//! Dense storage of the labels of a volume.
use crate::Idx3d;
use ndarray::Array3;
use vstd::prelude::*;

verus! {

/// A dense three-dimensional array of labels, indexed `(slice, height,
/// width)`: an `ndarray::Array3<u8>`, of which nothing is seen but what the
/// functions of this file tell.
#[verifier::external_body]
pub struct LabelGrid {
    cells: Array3<u8>,
}

/// The lengths of the three axes of a grid, as `dim` gives them.
pub uninterp spec fn grid_dim(g: LabelGrid) -> Idx3d;

/// The label that a grid holds at each of its indices, as `get` gives it.
pub uninterp spec fn grid_cells(g: LabelGrid) -> Map<Idx3d, u8>;

/// Length of an axis, with an empty axis counted as one.
pub open spec fn axis_or_one(n: usize) -> int {
    if n == 0 {
        1
    } else {
        n as int
    }
}

/// Whether a row-major buffer of `len` labels fills a grid of this shape.
pub open spec fn shape_fits(shape: Idx3d, len: nat) -> bool {
    &&& shape.0 * shape.1 * shape.2 == len
    &&& axis_or_one(shape.0) * axis_or_one(shape.1) * axis_or_one(shape.2) <= isize::MAX
}

/// Whether `pos` lies inside a grid of the given shape.
pub open spec fn within(shape: Idx3d, pos: Idx3d) -> bool {
    pos.0 < shape.0 && pos.1 < shape.1 && pos.2 < shape.2
}

/// Position of a voxel inside a row-major buffer.
pub open spec fn row_major(shape: Idx3d, pos: Idx3d) -> int {
    (pos.0 * shape.1 + pos.1) * shape.2 + pos.2
}

/// Calls `ndarray::ArrayBase::from_shape_vec` for an `Array3<u8>`, with a
/// plain (row-major) shape.
///
/// The call succeeds exactly when the number of labels equals the product of
/// the axis lengths and the product of the non-empty axes does not exceed
/// `isize::MAX`.  The grid then has the given shape and holds the labels in
/// row-major order.
#[verifier::external_body]
pub(crate) fn grid_from_vec(shape: Idx3d, labels: Vec<u8>) -> (r: Option<LabelGrid>)
    ensures
        r is Some <==> shape_fits(shape, labels@.len()),
        r is Some ==> grid_dim(r->0) == shape,
        r is Some ==> forall|p: Idx3d| #[trigger]
            within(shape, p) ==> grid_cells(r->0)[p] == labels@[row_major(shape, p)],
{
    match Array3::from_shape_vec(shape, labels) {
        Ok(cells) => Some(LabelGrid { cells }),
        Err(_) => None,
    }
}

/// Calls `ndarray::LayoutRef::dim` on the array: the lengths of the three axes.
#[verifier::external_body]
pub(crate) fn grid_shape(g: &LabelGrid) -> (d: Idx3d)
    ensures
        d == grid_dim(*g),
{
    g.cells.dim()
}

/// Calls `ndarray::ArrayRef::get` on the array: the label at `pos`, or
/// `None` when `pos` lies outside the grid.
#[verifier::external_body]
pub(crate) fn grid_get(g: &LabelGrid, pos: Idx3d) -> (r: Option<u8>)
    ensures
        r == (if within(grid_dim(*g), pos) {
            Some(grid_cells(*g)[pos])
        } else {
            None
        }),
{
    g.cells.get(pos).copied()
}

/// Calls `index_mut` of `ndarray::ArrayBase` through `[]`, which panics on
/// an index outside the grid: for an index inside, the grid then holds
/// `label` there and is otherwise unchanged, and the call returns.
#[verifier::external_body]
pub(crate) fn grid_set(g: &mut LabelGrid, pos: Idx3d, label: u8)
    requires
        within(grid_dim(*old(g)), pos),
    ensures
        grid_dim(*final(g)) == grid_dim(*old(g)),
        grid_cells(*final(g)) == grid_cells(*old(g)).insert(pos, label),
    no_unwind
{
    g.cells[pos] = label;
}

} // verus!
