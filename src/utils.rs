//! Small helpers shared by the ECCVM relations.
use crate::field::{fe, lemma_canonical_mod, p, Fe};
use vstd::arithmetic::div_mod::{lemma_add_mod_noop, lemma_sub_mod_noop};
use vstd::prelude::*;

verus! {

pub struct Utils;

impl Utils {
    /// The signed wNAF digit `2 * (4 * s0 + s1) - 15` of the two 2-bit
    /// slices `s0` (high) and `s1` (low) of a 4-bit window, in the field.
    pub fn convert_to_wnaf(s0: &Fe, s1: &Fe) -> (r: Fe)
        requires
            s0.wf(),
            s1.wf(),
        ensures
            r.wf(),
            r.val() == fe(8 * s0.val() + 2 * s1.val() - 15),
    {
        let two = s0.add(s0);
        let four = two.add(&two);
        let t = four.add(s1);
        let fifteen = Fe::from_u64(15);
        let naf = t.add(&t).sub(&fifteen);
        proof {
            let a = s0.val();
            let b = s1.val();
            lemma_canonical_mod(a);
            lemma_canonical_mod(b);
            lemma_canonical_mod(15);
            lemma_add_mod_noop(2 * a, 2 * a, p());
            lemma_add_mod_noop(4 * a, b, p());
            lemma_add_mod_noop(4 * a + b, 4 * a + b, p());
            lemma_sub_mod_noop(8 * a + 2 * b, 15, p());
        }
        naf
    }
}

} // verus!
