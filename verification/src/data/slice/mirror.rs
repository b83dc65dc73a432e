//! Copies of slices, kept to put a slice back as it was.
use vstd::prelude::*;

verus! {

/// The labels of a slice in row-major order, as they were when the copy was taken.
#[derive(Clone, Debug)]
pub struct LabelMirror(pub Vec<u8>);

impl LabelMirror {
    /// A copy that holds the given labels.
    pub fn from_labels(labels: Vec<u8>) -> (r: Self)
        ensures
            r.0@ == labels@,
    {
        LabelMirror(labels)
    }

    /// Number of labels in the copy.
    pub fn len(&self) -> (r: usize)
        ensures
            r == self.0@.len(),
    {
        self.0.len()
    }
}

} // verus!
