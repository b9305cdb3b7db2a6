//! The Fiat-Shamir-derived values that every relation reads.
use crate::field::Fe;
use vstd::prelude::*;

verus! {

/// The relation parameters: the challenges `beta` and `gamma`, the powers of
/// `beta` the set relation uses, and the inverted set-permutation delta.
#[derive(Clone, Copy, Debug)]
pub struct RelationParameters {
    pub beta: Fe,
    pub gamma: Fe,
    pub beta_sqr: Fe,
    pub beta_cube: Fe,
    pub eccvm_set_permutation_delta: Fe,
}

impl RelationParameters {
    pub open spec fn wf(&self) -> bool {
        &&& self.beta.wf()
        &&& self.gamma.wf()
        &&& self.beta_sqr.wf()
        &&& self.beta_cube.wf()
        &&& self.eccvm_set_permutation_delta.wf()
    }

    /// Parameters that are all zero, before any challenge is drawn.
    pub fn zero() -> (r: RelationParameters)
        ensures
            r.wf(),
            r.beta.val() == 0,
            r.gamma.val() == 0,
            r.beta_sqr.val() == 0,
            r.beta_cube.val() == 0,
            r.eccvm_set_permutation_delta.val() == 0,
    {
        let z = Fe::zero();
        RelationParameters { beta: z, gamma: z, beta_sqr: z, beta_cube: z, eccvm_set_permutation_delta: z }
    }
}

} // verus!
