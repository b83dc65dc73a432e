//! Single-channel label and colour values.
use vstd::prelude::*;

verus! {

/// Label of a background voxel.
pub const LITS_BACKGROUND: u8 = 0;

/// Label of a liver voxel.
pub const LITS_LIVER: u8 = 1;

/// Label of a tumor voxel.
pub const LITS_TUMOR: u8 = 2;

/// Label reserved for the boundary of the liver inside a slice.
pub const LITS_BOUNDARY: u8 = 3;

/// Black.
pub const BLACK: u8 = 0b_0000_0000;

/// Dark gray.
pub const DARK_GRAY: u8 = 0b_0100_0000;

/// Gray.
pub const GRAY: u8 = 0b_1000_0000;

/// Light gray.
pub const LIGHT_GRAY: u8 = 0b_1100_0000;

/// White.
pub const WHITE: u8 = 0b_1111_1111;

/// A label counts as liver-like when it marks liver or tumor tissue.
pub open spec fn liver_or_tumor(p: u8) -> bool {
    p == LITS_LIVER || p == LITS_TUMOR
}

/// Is the voxel a tumor voxel?
#[inline]
pub fn is_tumor(p: u8) -> (r: bool)
    ensures
        r == (p == LITS_TUMOR),
{
    p == LITS_TUMOR
}

/// Is the voxel a liver voxel?
#[inline]
pub fn is_liver(p: u8) -> (r: bool)
    ensures
        r == (p == LITS_LIVER),
{
    p == LITS_LIVER
}

/// Is the voxel a background voxel?
#[inline]
pub fn is_background(p: u8) -> (r: bool)
    ensures
        r == (p == LITS_BACKGROUND),
{
    p == LITS_BACKGROUND
}

/// Is the voxel a boundary voxel?
#[inline]
pub fn is_boundary(p: u8) -> (r: bool)
    ensures
        r == (p == LITS_BOUNDARY),
{
    p == LITS_BOUNDARY
}

/// Is the voxel a liver or a boundary voxel?
#[inline]
pub fn is_liver_or_boundary(p: u8) -> (r: bool)
    ensures
        r == (p == LITS_LIVER || p == LITS_BOUNDARY),
{
    p == LITS_LIVER || p == LITS_BOUNDARY
}

/// Is the voxel a liver or a tumor voxel?
#[inline]
#[verifier::when_used_as_spec(liver_or_tumor)]
pub fn is_liver_or_tumor(p: u8) -> (r: bool)
    ensures
        r == liver_or_tumor(p),
{
    p == LITS_LIVER || p == LITS_TUMOR
}

} // verus!
