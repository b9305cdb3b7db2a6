//! The set relation: the log-derivative set-equality argument that ties the
//! MSM relation's table reads to the table writes elsewhere in the trace.
//! Its accumulator layout is fixed here; its row identities are not written
//! yet, and asking for them fails explicitly.
use crate::accumulator::RelationAccumulator;
use crate::field::Fe;
use crate::params::RelationParameters;
use crate::univariate::zeros;
use vstd::prelude::*;

verus! {

/// Number of sub-identities of the set relation.
pub const SET_NUM_SUBRELATIONS: usize = 2;

/// Evaluations held by the grand-product identity.
pub const SET_PARTIAL_LENGTH_0: usize = 22;

/// Evaluations held by the boundary identity.
pub const SET_PARTIAL_LENGTH_1: usize = 3;

/// Why a relation could not add its contribution.
#[derive(Clone, Copy, Debug, PartialEq, Eq, Structural)]
pub enum RelationError {
    /// The relation's row identities are not implemented.
    NotImplemented,
}

/// An accumulator of the set relation's shape.
pub open spec fn is_set_accumulator(acc: &RelationAccumulator) -> bool {
    &&& acc.wf()
    &&& acc.slots@.len() == SET_NUM_SUBRELATIONS
    &&& acc.slots@[0].len() == SET_PARTIAL_LENGTH_0
    &&& acc.slots@[1].len() == SET_PARTIAL_LENGTH_1
}

/// The values of the set relation's columns at one evaluation point; the
/// relation's identities, once written, read them.
#[derive(Clone, Copy, Debug)]
pub struct SetRow {
    pub lagrange_first: Fe,
    pub lagrange_last: Fe,
    pub z_perm: Fe,
    pub z_perm_shift: Fe,
}

pub struct EccSetRelation {}

impl EccSetRelation {
    /// A zero accumulator of the relation's shape.
    pub fn zero_accumulator() -> (r: RelationAccumulator)
        ensures
            is_set_accumulator(&r),
            r@[0] == zeros(SET_PARTIAL_LENGTH_0 as nat),
            r@[1] == zeros(SET_PARTIAL_LENGTH_1 as nat),
    {
        let mut widths: Vec<usize> = Vec::new();
        widths.push(SET_PARTIAL_LENGTH_0);
        widths.push(SET_PARTIAL_LENGTH_1);
        let r = RelationAccumulator::zero(&widths);
        assert(r@[0] == r.slots@[0]@ && r@[1] == r.slots@[1]@);
        r
    }

    /// The relation never reports a row as skippable.
    pub fn skip(input: &Vec<SetRow>) -> (r: bool)
        ensures
            !r,
    {
        false
    }

    /// The row identities of the set relation are not implemented: the call
    /// fails and leaves the accumulator as it was.
    pub fn accumulate(
        univariate_accumulator: &mut RelationAccumulator,
        input: &Vec<SetRow>,
        relation_parameters: &RelationParameters,
        scaling_factor: &Fe,
    ) -> (r: Result<(), RelationError>)
        ensures
            r == Err::<(), RelationError>(RelationError::NotImplemented),
            *final(univariate_accumulator) == *old(univariate_accumulator),
    {
        Err(RelationError::NotImplemented)
    }

    /// The scalar counterpart of `accumulate`; not implemented either.
    pub fn verify_accumulate(
        evaluations: &mut Vec<Fe>,
        input: &SetRow,
        relation_parameters: &RelationParameters,
        scaling_factor: &Fe,
    ) -> (r: Result<(), RelationError>)
        ensures
            r == Err::<(), RelationError>(RelationError::NotImplemented),
            *final(evaluations) == *old(evaluations),
    {
        Err(RelationError::NotImplemented)
    }
}

} // verus!
