//! Label values and the binary voxel classification.
use vstd::prelude::*;

pub mod gray;

verus! {

/// Number of volumes in the LiTS training set.
pub const LITS_TRAINING_SET_LEN: u32 = 131;

/// Number of volumes in the LiTS testing set.
pub const LITS_TESTING_SET_LEN: u32 = 70;

/// Binary classification of a voxel.
#[derive(Copy, Clone, Debug, Eq, PartialEq, Structural)]
pub enum ElemType {
    /// Everything that is neither liver nor tumor.
    Background,
    /// Liver or tumor.
    Foreground,
}

impl ElemType {
    /// Whether the voxel belongs to the foreground.
    #[inline]
    pub fn is_foreground(&self) -> (r: bool)
        ensures
            r == (*self == ElemType::Foreground),
    {
        matches!(self, ElemType::Foreground)
    }

    /// Whether the voxel belongs to the background.
    #[inline]
    pub fn is_background(&self) -> (r: bool)
        ensures
            r == (*self == ElemType::Background),
    {
        !self.is_foreground()
    }
}

} // verus!
