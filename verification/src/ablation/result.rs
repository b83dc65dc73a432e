//! The outcome of an experiment: one profile for each algorithm.
use crate::ablation::profile::Profile;
use vstd::prelude::*;

verus! {

/// The profiles of the algorithms that were compared, each under its name.
pub struct AblationResult {
    data: Vec<(&'static str, Profile)>,
}

impl AblationResult {
    /// The profiles, in the order in which they were given.
    pub closed spec fn entries(self) -> Seq<(&'static str, Profile)> {
        self.data@
    }

    /// The outcome that is made of the given profiles.
    pub fn from_iter(it: Vec<(&'static str, Profile)>) -> (r: Self)
        ensures
            r.entries() == it@,
    {
        AblationResult { data: it }
    }

    /// Number of profiles.
    pub fn len(&self) -> (r: usize)
        ensures
            r == self.entries().len(),
    {
        self.data.len()
    }

    /// The name and the profile number `index`.
    pub fn at(&self, index: usize) -> (r: (&'static str, &Profile))
        requires
            index < self.entries().len(),
        ensures
            r.0 == self.entries()[index as int].0,
            *r.1 == self.entries()[index as int].1,
    {
        (self.data[index].0, &self.data[index].1)
    }
}

} // verus!
