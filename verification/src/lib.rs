//! Morphological analysis of labelled CT volumes.
//!
//! The crate locates the morphological centre of the liver region of a
//! labelled three-dimensional scan by repeatedly peeling its surface, and
//! collects the voxels that lie within a physical radius of that centre or of
//! three peripheral centres derived from it.  All lengths are integers in
//! micrometres, so every comparison of distances is exact.
use vstd::prelude::*;

pub use crate::data::morph_3d::peripheral::Blend;
pub use crate::data::morph_3d::Erosion;
pub use crate::data::sector;
pub use crate::data::slice::mirror::LabelMirror;
pub use crate::data::CtLabel;

pub mod ablation;
pub mod consts;
pub mod data;
pub mod eight;
pub mod fitting;
pub mod lsn;
pub mod post_proc;

verus! {

/// Index of a pixel inside a horizontal slice: `(height, width)`.
pub type Idx2d = (usize, usize);

/// Index of a voxel inside a volume: `(slice, height, width)`.
pub type Idx3d = (usize, usize, usize);

} // verus!
