//! The ECCVM prover's round sequencing: the five phases run in a fixed order,
//! each refusing to run out of turn, and the decisions each phase makes from
//! the challenges it is handed. Drawing challenges, committing and the
//! sumcheck and opening engines are the caller's part.
use crate::field::{fadd, fmul, is_inverse, Fe};
use crate::params::RelationParameters;
use vstd::arithmetic::power2::{lemma2_to64, lemma2_to64_rest, lemma_pow2_pos, lemma_pow2_strictly_increases, lemma_pow2_unfold, pow2};
use vstd::prelude::*;

verus! {

/// Number of sumcheck rounds, and so of gate challenges.
pub const CONST_ECCVM_LOG_N: usize = 16;

/// Rows at the end of the trace that are disabled in sumcheck and hold the
/// masking values.
pub const NUM_DISABLED_ROWS_IN_SUMCHECK: u32 = 4;

/// The phases of proof construction, in the order they run.
#[derive(Clone, Copy, Debug, PartialEq, Eq, Structural)]
pub enum Phase {
    WireCommitments,
    LogDerivativeCommitments,
    GrandProductComputation,
    RelationCheck,
    Pcs,
    Finished,
}

/// Position of a phase in the order.
pub open spec fn phase_rank(p: Phase) -> nat {
    match p {
        Phase::WireCommitments => 0,
        Phase::LogDerivativeCommitments => 1,
        Phase::GrandProductComputation => 2,
        Phase::RelationCheck => 3,
        Phase::Pcs => 4,
        Phase::Finished => 5,
    }
}

/// The phase that follows `p`.
pub open spec fn next_phase(p: Phase) -> Phase {
    match p {
        Phase::WireCommitments => Phase::LogDerivativeCommitments,
        Phase::LogDerivativeCommitments => Phase::GrandProductComputation,
        Phase::GrandProductComputation => Phase::RelationCheck,
        Phase::RelationCheck => Phase::Pcs,
        Phase::Pcs => Phase::Finished,
        Phase::Finished => Phase::Finished,
    }
}

/// Why proof construction stopped.
#[derive(Clone, Copy, Debug, PartialEq, Eq, Structural)]
pub enum ProverError {
    /// The circuit size is not a power of two of at least the disabled rows,
    /// or the real size exceeds it.
    InvalidCircuitSize,
    /// A phase was asked for out of turn.
    OutOfOrder,
    /// The set-permutation product of the challenges is zero.
    DegenerateChallenge,
    /// Not exactly one gate challenge per sumcheck round was given.
    GateChallengeCount,
    /// The sumcheck gave no claimed masking evaluation.
    MissingMaskingEvaluation,
}

/// `k` is the index of the most significant set bit of `n`.
pub open spec fn is_msb(n: nat, k: nat) -> bool {
    pow2(k) <= n < pow2(k + 1)
}

/// `gamma * (gamma + beta^2) * (gamma + 2 beta^2) * (gamma + 3 beta^2)`, the
/// product whose inverse is the set-permutation delta.
pub open spec fn permutation_product(beta: int, gamma: int) -> int {
    let b2 = fmul(beta, beta);
    fmul(
        fmul(fmul(gamma, fadd(gamma, b2)), fadd(fadd(gamma, b2), b2)),
        fadd(fadd(fadd(gamma, b2), b2), b2),
    )
}

/// The index of the most significant set bit of a nonzero integer.
pub fn get_msb64(n: u64) -> (r: u32)
    requires
        n > 0,
    ensures
        r < 64,
        is_msb(n as nat, r as nat),
{
    let mut k: u32 = 0;
    let mut rest: u64 = n;
    proof {
        lemma2_to64();
    }
    while rest > 1
        invariant
            k < 64,
            rest >= 1,
            pow2(k as nat) * rest <= n < pow2(k as nat) * (rest + 1),
        decreases rest,
    {
        proof {
            let a = pow2(k as nat);
            let q = (rest / 2) as int;
            let m = (rest % 2) as int;
            lemma_pow2_unfold((k + 1) as nat);
            lemma_pow2_pos(k as nat);
            assert(a * 2 * q <= a * rest && a * (rest + 1) <= a * 2 * (q + 1)) by (nonlinear_arith)
                requires
                    a > 0,
                    rest == 2 * q + m,
                    0 <= m < 2;
            assert(a * 2 <= a * rest) by (nonlinear_arith)
                requires
                    a > 0,
                    rest >= 2;
            lemma_pow2_bound(k as nat, n);
        }
        rest = rest / 2;
        k = k + 1;
    }
    proof {
        lemma_pow2_unfold((k + 1) as nat);
        assert(rest == 1);
        assert(pow2(k as nat) * rest == pow2(k as nat));
        assert(pow2(k as nat) * (rest + 1) == 2 * pow2(k as nat));
    }
    k
}

proof fn lemma_pow2_bound(k: nat, n: u64)
    requires
        pow2(k) * 2 <= n,
    ensures
        k < 63,
{
    if k >= 63 {
        lemma_pow2_mono(63, k);
        lemma2_to64_rest();
    }
}

proof fn lemma_pow2_mono(a: nat, b: nat)
    requires
        a <= b,
    ensures
        pow2(a) <= pow2(b),
    decreases b,
{
    if a < b {
        lemma_pow2_strictly_increases(a, b);
    }
}

/// What the wire-commitment phase decided: whether the wires are committed
/// structured (only their active ranges), and where the masked tail starts.
#[derive(Clone, Copy, Debug, PartialEq, Eq, Structural)]
pub struct WireCommitmentPlan {
    pub structured: bool,
    pub unmasked_witness_size: u32,
}

/// What the relation-check phase decided: the masking data's log size, and
/// how many monomials of the commitment key the small-subgroup commitments
/// use.
#[derive(Clone, Copy, Debug, PartialEq, Eq, Structural)]
pub struct RelationCheckSetup {
    pub log_circuit_size: u32,
    pub commitment_key_size: u64,
}

/// The prover's state between phases.
#[derive(Debug)]
pub struct EccvmProver {
    phase: Phase,
    circuit_size: u32,
    real_size: u32,
    relation_parameters: RelationParameters,
    alpha: Fe,
    gate_challenges: Vec<Fe>,
}

impl EccvmProver {
    pub closed spec fn spec_phase(&self) -> Phase {
        self.phase
    }

    pub closed spec fn spec_circuit_size(&self) -> nat {
        self.circuit_size as nat
    }

    pub closed spec fn spec_real_size(&self) -> nat {
        self.real_size as nat
    }

    pub closed spec fn spec_relation_parameters(&self) -> RelationParameters {
        self.relation_parameters
    }

    pub closed spec fn spec_alpha(&self) -> Fe {
        self.alpha
    }

    pub closed spec fn spec_gate_challenges(&self) -> Seq<Fe> {
        self.gate_challenges@
    }

    /// The sizes are valid: the circuit size is a power of two of at least
    /// the disabled rows, and the real size does not exceed it.
    pub open spec fn valid_sizes(circuit_size: nat, real_size: nat) -> bool {
        &&& NUM_DISABLED_ROWS_IN_SUMCHECK <= circuit_size
        &&& real_size <= circuit_size
        &&& exists|k: nat| pow2(k) == circuit_size
    }

    pub open spec fn wf(&self) -> bool {
        &&& Self::valid_sizes(self.spec_circuit_size(), self.spec_real_size())
        &&& self.spec_relation_parameters().wf()
    }

    /// A prover for a trace of `real_size` rows padded to `circuit_size`.
    pub fn new(circuit_size: u32, real_size: u32) -> (r: Result<EccvmProver, ProverError>)
        ensures
            r is Ok <==> Self::valid_sizes(circuit_size as nat, real_size as nat),
            r is Err ==> r == Err::<EccvmProver, ProverError>(ProverError::InvalidCircuitSize),
            r matches Ok(p) ==> {
                &&& p.wf()
                &&& p.spec_phase() == Phase::WireCommitments
                &&& p.spec_circuit_size() == circuit_size
                &&& p.spec_real_size() == real_size
            },
    {
        if circuit_size < NUM_DISABLED_ROWS_IN_SUMCHECK || real_size > circuit_size {
            return Err(ProverError::InvalidCircuitSize);
        }
        let k = get_msb64(circuit_size as u64);
        let is_pow2 = pow2_exec(k) == circuit_size as u64;
        proof {
            if !is_pow2 {
                assert forall|j: nat| pow2(j) != circuit_size as nat by {
                    if pow2(j) == circuit_size as nat {
                        lemma_pow2_unfold(j + 1);
                        lemma_pow2_pos(j);
                        if j < k {
                            lemma_pow2_mono(j + 1, k as nat);
                        } else if j > k {
                            lemma_pow2_mono(k as nat + 1, j);
                        }
                        assert(j == k);
                    }
                }
            }
        }
        if !is_pow2 {
            return Err(ProverError::InvalidCircuitSize);
        }
        Ok(EccvmProver {
            phase: Phase::WireCommitments,
            circuit_size,
            real_size,
            relation_parameters: RelationParameters::zero(),
            alpha: Fe::zero(),
            gate_challenges: Vec::new(),
        })
    }

    pub fn phase(&self) -> (r: Phase)
        ensures
            r == self.spec_phase(),
    {
        self.phase
    }

    pub fn relation_parameters(&self) -> (r: RelationParameters)
        ensures
            r == self.spec_relation_parameters(),
    {
        self.relation_parameters
    }

/// `b` is `a` moved to the phase after `a`'s, with nothing else changed.
    pub open spec fn advanced_from(b: &EccvmProver, a: &EccvmProver) -> bool {
        &&& b.spec_phase() == next_phase(a.spec_phase())
        &&& b.spec_circuit_size() == a.spec_circuit_size()
        &&& b.spec_real_size() == a.spec_real_size()
        &&& b.spec_relation_parameters() == a.spec_relation_parameters()
        &&& b.spec_alpha() == a.spec_alpha()
        &&& b.spec_gate_challenges() == a.spec_gate_challenges()
    }

    /// Phase 1, wire commitments. Decides how the wires are committed: when
    /// the trace is shorter than the circuit, structured over the active
    /// ranges only; the masked tail starts `NUM_DISABLED_ROWS_IN_SUMCHECK`
    /// rows before the end.
    pub fn execute_wire_commitments_round(&mut self) -> (r: Result<WireCommitmentPlan, ProverError>)
        requires
            old(self).wf(),
        ensures
            final(self).wf(),
            old(self).spec_phase() != Phase::WireCommitments ==> r == Err::<WireCommitmentPlan, ProverError>(
                ProverError::OutOfOrder,
            ) && *final(self) == *old(self),
            old(self).spec_phase() == Phase::WireCommitments ==> r == Ok::<WireCommitmentPlan, ProverError>(
                (WireCommitmentPlan {
                    structured: old(self).spec_circuit_size() > old(self).spec_real_size(),
                    unmasked_witness_size: (old(self).spec_circuit_size() - NUM_DISABLED_ROWS_IN_SUMCHECK) as u32,
                }),
            ) && Self::advanced_from(final(self), old(self)),
    {
        if self.phase != Phase::WireCommitments {
            return Err(ProverError::OutOfOrder);
        }
        let plan = WireCommitmentPlan {
            structured: self.circuit_size > self.real_size,
            unmasked_witness_size: self.circuit_size - NUM_DISABLED_ROWS_IN_SUMCHECK,
        };
        self.advance();
        Ok(plan)
    }

    /// The row ranges of a wire of `wire_len` entries that hold data: the
    /// real rows, starting at row one when the wire's length differs from the
    /// circuit size, and the masked tail.
    pub fn wire_active_ranges(&self, wire_len: usize) -> (r: Vec<(u64, u64)>)
        requires
            self.wf(),
        ensures
            r@ == seq![
                (
                    if wire_len == self.spec_circuit_size() { 0u64 } else { 1u64 },
                    (self.spec_real_size() + if wire_len == self.spec_circuit_size() { 0nat } else { 1nat }) as u64,
                ),
                (
                    (self.spec_circuit_size() - NUM_DISABLED_ROWS_IN_SUMCHECK) as u64,
                    self.spec_circuit_size() as u64,
                ),
            ],
    {
        let start: u64 = if wire_len == self.circuit_size as usize { 0 } else { 1 };
        let mut r: Vec<(u64, u64)> = Vec::new();
        r.push((start, self.real_size as u64 + start));
        r.push(((self.circuit_size - NUM_DISABLED_ROWS_IN_SUMCHECK) as u64, self.circuit_size as u64));
        assert(r@ =~= seq![
            (
                if wire_len == self.spec_circuit_size() { 0u64 } else { 1u64 },
                (self.spec_real_size() + if wire_len == self.spec_circuit_size() { 0nat } else { 1nat }) as u64,
            ),
            (
                (self.spec_circuit_size() - NUM_DISABLED_ROWS_IN_SUMCHECK) as u64,
                self.spec_circuit_size() as u64,
            ),
        ]);
        r
    }

    /// Phase 2, log-derivative commitments. From the challenges `beta` and
    /// `gamma` sets the relation parameters: `beta`, `gamma`, `beta^2`,
    /// `beta^3` and the inverse of the set-permutation product. Fails, and
    /// changes nothing, when that product is zero.
    pub fn execute_log_derivative_commitments_round(&mut self, beta: Fe, gamma: Fe) -> (r: Result<(), ProverError>)
        requires
            old(self).wf(),
            beta.wf(),
            gamma.wf(),
        ensures
            final(self).wf(),
            old(self).spec_phase() != Phase::LogDerivativeCommitments ==> r == Err::<(), ProverError>(
                ProverError::OutOfOrder,
            ) && *final(self) == *old(self),
            old(self).spec_phase() == Phase::LogDerivativeCommitments && permutation_product(beta.val(), gamma.val())
                == 0 ==> r == Err::<(), ProverError>(ProverError::DegenerateChallenge) && *final(self) == *old(self),
            old(self).spec_phase() == Phase::LogDerivativeCommitments && permutation_product(beta.val(), gamma.val())
                != 0 ==> {
                let p = final(self).spec_relation_parameters();
                &&& r is Ok
                &&& final(self).spec_phase() == Phase::GrandProductComputation
                &&& final(self).spec_circuit_size() == old(self).spec_circuit_size()
                &&& final(self).spec_real_size() == old(self).spec_real_size()
                &&& final(self).spec_alpha() == old(self).spec_alpha()
                &&& final(self).spec_gate_challenges() == old(self).spec_gate_challenges()
                &&& p.beta == beta
                &&& p.gamma == gamma
                &&& p.beta_sqr.val() == fmul(beta.val(), beta.val())
                &&& p.beta_cube.val() == fmul(fmul(beta.val(), beta.val()), beta.val())
                &&& is_inverse(permutation_product(beta.val(), gamma.val()), p.eccvm_set_permutation_delta.val())
            },
    {
        if self.phase != Phase::LogDerivativeCommitments {
            return Err(ProverError::OutOfOrder);
        }
        let beta_sqr = beta.mul(&beta);
        let g1 = gamma.add(&beta_sqr);
        let g2 = g1.add(&beta_sqr);
        let g3 = g2.add(&beta_sqr);
        let product = gamma.mul(&g1).mul(&g2).mul(&g3);
        let delta = match product.inverse() {
            Some(d) => d,
            None => {
                return Err(ProverError::DegenerateChallenge);
            },
        };
        self.relation_parameters = RelationParameters {
            beta,
            gamma,
            beta_sqr,
            beta_cube: beta_sqr.mul(&beta),
            eccvm_set_permutation_delta: delta,
        };
        self.advance();
        Ok(())
    }

    /// Phase 3, grand-product computation. The product column is computed
    /// and committed by the caller; here the phase only takes its turn.
    pub fn execute_grand_product_computation_round(&mut self) -> (r: Result<(), ProverError>)
        requires
            old(self).wf(),
        ensures
            final(self).wf(),
            old(self).spec_phase() != Phase::GrandProductComputation ==> r == Err::<(), ProverError>(
                ProverError::OutOfOrder,
            ) && *final(self) == *old(self),
            old(self).spec_phase() == Phase::GrandProductComputation ==> r is Ok && Self::advanced_from(
                final(self),
                old(self),
            ),
    {
        if self.phase != Phase::GrandProductComputation {
            return Err(ProverError::OutOfOrder);
        }
        self.advance();
        Ok(())
    }

    /// Phase 4, relation check. Takes `alpha` and one gate challenge per
    /// sumcheck round, and decides the size of the masking data (the log of
    /// the circuit size) and of the commitment key prefix that commits it
    /// (twice the largest power of two in `subgroup_size`).
    pub fn execute_relation_check_rounds(
        &mut self,
        alpha: Fe,
        gate_challenges: Vec<Fe>,
        subgroup_size: u32,
    ) -> (r: Result<RelationCheckSetup, ProverError>)
        requires
            old(self).wf(),
            subgroup_size > 0,
        ensures
            final(self).wf(),
            old(self).spec_phase() != Phase::RelationCheck ==> r == Err::<RelationCheckSetup, ProverError>(
                ProverError::OutOfOrder,
            ) && *final(self) == *old(self),
            old(self).spec_phase() == Phase::RelationCheck && gate_challenges.len() != CONST_ECCVM_LOG_N ==> r
                == Err::<RelationCheckSetup, ProverError>(ProverError::GateChallengeCount) && *final(self) == *old(self),
            old(self).spec_phase() == Phase::RelationCheck && gate_challenges.len() == CONST_ECCVM_LOG_N ==> {
                &&& r matches Ok(setup) && is_msb(old(self).spec_circuit_size(), setup.log_circuit_size as nat)
                    && exists|k: nat| is_msb(subgroup_size as nat, k) && setup.commitment_key_size == pow2(k + 1)
                &&& final(self).spec_phase() == Phase::Pcs
                &&& final(self).spec_circuit_size() == old(self).spec_circuit_size()
                &&& final(self).spec_real_size() == old(self).spec_real_size()
                &&& final(self).spec_relation_parameters() == old(self).spec_relation_parameters()
                &&& final(self).spec_alpha() == alpha
                &&& final(self).spec_gate_challenges() == gate_challenges@
            },
    {
        if self.phase != Phase::RelationCheck {
            return Err(ProverError::OutOfOrder);
        }
        if gate_challenges.len() != CONST_ECCVM_LOG_N {
            return Err(ProverError::GateChallengeCount);
        }
        let log_subgroup_size = get_msb64(subgroup_size as u64);
        proof {
            if log_subgroup_size >= 32 {
                lemma_pow2_mono(32, log_subgroup_size as nat);
                lemma2_to64();
            }
        }
        let commitment_key_size = pow2_exec(log_subgroup_size + 1);
        let log_circuit_size = get_msb64(self.circuit_size as u64);
        self.alpha = alpha;
        self.gate_challenges = gate_challenges;
        self.advance();
        Ok(RelationCheckSetup { log_circuit_size, commitment_key_size })
    }

    /// Phase 5, opening. Needs the claimed masking evaluation that the
    /// zero-knowledge sumcheck produced; the opening itself is the caller's.
    pub fn execute_pcs_rounds(&mut self, claimed_libra_evaluation: Option<Fe>) -> (r: Result<(), ProverError>)
        requires
            old(self).wf(),
        ensures
            final(self).wf(),
            old(self).spec_phase() != Phase::Pcs ==> r == Err::<(), ProverError>(ProverError::OutOfOrder)
                && *final(self) == *old(self),
            old(self).spec_phase() == Phase::Pcs && claimed_libra_evaluation is None ==> r == Err::<(), ProverError>(
                ProverError::MissingMaskingEvaluation,
            ) && *final(self) == *old(self),
            old(self).spec_phase() == Phase::Pcs && claimed_libra_evaluation is Some ==> r is Ok
                && Self::advanced_from(final(self), old(self)),
    {
        if self.phase != Phase::Pcs {
            return Err(ProverError::OutOfOrder);
        }
        if claimed_libra_evaluation.is_none() {
            return Err(ProverError::MissingMaskingEvaluation);
        }
        self.advance();
        Ok(())
    }

    fn advance(&mut self)
        ensures
            Self::advanced_from(final(self), old(self)),
    {
        self.phase = match self.phase {
            Phase::WireCommitments => Phase::LogDerivativeCommitments,
            Phase::LogDerivativeCommitments => Phase::GrandProductComputation,
            Phase::GrandProductComputation => Phase::RelationCheck,
            Phase::RelationCheck => Phase::Pcs,
            Phase::Pcs => Phase::Finished,
            Phase::Finished => Phase::Finished,
        };
    }
}

/// One call of a phase method: the phase stays where it is (the call was
/// refused or failed) or moves to the next one.
pub open spec fn phase_step(a: Phase, b: Phase) -> bool {
    b == a || b == next_phase(a)
}

/// The phases a prover passes through over a run of calls, starting fresh.
pub open spec fn is_phase_run(run: Seq<Phase>) -> bool {
    &&& run.len() > 0
    &&& run[0] == Phase::WireCommitments
    &&& forall|i: int| 0 <= i < run.len() - 1 ==> phase_step(#[trigger] run[i], run[i + 1])
}

/// Every phase method moves the phase by one such step.
pub proof fn lemma_methods_step(a: &EccvmProver, b: &EccvmProver)
    requires
        *b == *a || EccvmProver::advanced_from(b, a),
    ensures
        phase_step(a.spec_phase(), b.spec_phase()),
{
}

/// Phase ordering: in any run of calls, the relation check is reached only
/// after the log-derivative phase completed, that is, after a call moved the
/// prover from the log-derivative phase to the grand-product phase.
pub proof fn lemma_relation_check_after_log_derivative(run: Seq<Phase>, j: int)
    requires
        is_phase_run(run),
        0 <= j < run.len(),
        run[j] == Phase::RelationCheck,
    ensures
        exists|i: int|
            0 <= i < j && run[i] == Phase::LogDerivativeCommitments && #[trigger] run[i + 1]
                == Phase::GrandProductComputation,
{
    lemma_log_derivative_passed(run, j);
}

proof fn lemma_log_derivative_passed(run: Seq<Phase>, j: int)
    requires
        is_phase_run(run),
        0 <= j < run.len(),
        phase_rank(run[j]) >= 2,
    ensures
        exists|i: int|
            0 <= i < j && run[i] == Phase::LogDerivativeCommitments && #[trigger] run[i + 1]
                == Phase::GrandProductComputation,
    decreases j,
{
    if j > 0 {
        assert(phase_step(run[j - 1], run[j]));
        if phase_rank(run[j - 1]) >= 2 {
            lemma_log_derivative_passed(run, j - 1);
        } else {
            assert(run[j - 1] == Phase::LogDerivativeCommitments && run[j] == Phase::GrandProductComputation);
        }
    }
}

/// `2^k` for a small `k`.
fn pow2_exec(k: u32) -> (r: u64)
    requires
        k < 64,
    ensures
        r == pow2(k as nat),
{
    let mut r: u64 = 1;
    let mut i: u32 = 0;
    proof {
        lemma2_to64();
    }
    while i < k
        invariant
            i <= k < 64,
            r == pow2(i as nat),
        decreases k - i,
    {
        proof {
            lemma_pow2_mono(i as nat + 1, 63);
            lemma2_to64_rest();
            lemma_pow2_unfold(i as nat + 1);
        }
        r = r * 2;
        i = i + 1;
    }
    r
}

} // verus!
