use eccvm_core::field::Fe;
use eccvm_core::prover::{
    get_msb64, EccvmProver, Phase, ProverError, RelationCheckSetup, WireCommitmentPlan, CONST_ECCVM_LOG_N,
};
use eccvm_core::set_relation::{EccSetRelation, RelationError};
use eccvm_core::utils::Utils;
use eccvm_core::params::RelationParameters;

fn gates() -> Vec<Fe> {
    (0..CONST_ECCVM_LOG_N as u64).map(|i| Fe::from_u64(100 + i)).collect()
}

#[test]
fn prover_rejects_relation_check_before_log_derivative() {
    let mut p = EccvmProver::new(16, 10).unwrap();
    assert_eq!(p.execute_relation_check_rounds(Fe::one(), gates(), 256), Err(ProverError::OutOfOrder));
    p.execute_wire_commitments_round().unwrap();
    assert_eq!(p.execute_relation_check_rounds(Fe::one(), gates(), 256), Err(ProverError::OutOfOrder));
    assert_eq!(p.phase(), Phase::LogDerivativeCommitments);
}

#[test]
fn prover_runs_phases_in_order() {
    let mut p = EccvmProver::new(1 << 16, 1000).unwrap();
    assert_eq!(
        p.execute_wire_commitments_round(),
        Ok(WireCommitmentPlan { structured: true, unmasked_witness_size: (1 << 16) - 4 })
    );
    assert_eq!(p.execute_wire_commitments_round(), Err(ProverError::OutOfOrder));
    p.execute_log_derivative_commitments_round(Fe::from_u64(2), Fe::from_u64(3)).unwrap();
    assert_eq!(p.execute_pcs_rounds(Some(Fe::one())), Err(ProverError::OutOfOrder));
    p.execute_grand_product_computation_round().unwrap();
    assert_eq!(
        p.execute_relation_check_rounds(Fe::one(), gates(), 256),
        Ok(RelationCheckSetup { log_circuit_size: 16, commitment_key_size: 512 })
    );
    assert_eq!(p.execute_pcs_rounds(None), Err(ProverError::MissingMaskingEvaluation));
    assert_eq!(p.execute_pcs_rounds(Some(Fe::one())), Ok(()));
    assert_eq!(p.phase(), Phase::Finished);
}

#[test]
fn prover_relation_parameters_from_challenges() {
    let mut p = EccvmProver::new(16, 16).unwrap();
    assert_eq!(
        p.execute_wire_commitments_round(),
        Ok(WireCommitmentPlan { structured: false, unmasked_witness_size: 12 })
    );
    p.execute_log_derivative_commitments_round(Fe::from_u64(2), Fe::from_u64(3)).unwrap();
    let params: RelationParameters = p.relation_parameters();
    assert_eq!(params.beta, Fe::from_u64(2));
    assert_eq!(params.gamma, Fe::from_u64(3));
    assert_eq!(params.beta_sqr, Fe::from_u64(4));
    assert_eq!(params.beta_cube, Fe::from_u64(8));
    // 3 * 7 * 11 * 15 = 3465
    assert_eq!(params.eccvm_set_permutation_delta.mul(&Fe::from_u64(3465)), Fe::one());
    assert_eq!(p.phase(), Phase::GrandProductComputation);
}

#[test]
fn prover_degenerate_challenge() {
    let mut p = EccvmProver::new(16, 8).unwrap();
    p.execute_wire_commitments_round().unwrap();
    assert_eq!(
        p.execute_log_derivative_commitments_round(Fe::from_u64(5), Fe::zero()),
        Err(ProverError::DegenerateChallenge)
    );
    assert_eq!(p.phase(), Phase::LogDerivativeCommitments);
    // gamma = -beta^2 makes the second factor vanish
    let gamma = Fe::zero().sub(&Fe::from_u64(25));
    assert_eq!(
        p.execute_log_derivative_commitments_round(Fe::from_u64(5), gamma),
        Err(ProverError::DegenerateChallenge)
    );
}

#[test]
fn prover_gate_challenge_count() {
    let mut p = EccvmProver::new(32, 8).unwrap();
    p.execute_wire_commitments_round().unwrap();
    p.execute_log_derivative_commitments_round(Fe::from_u64(2), Fe::from_u64(3)).unwrap();
    p.execute_grand_product_computation_round().unwrap();
    let mut short = gates();
    short.pop();
    assert_eq!(p.execute_relation_check_rounds(Fe::one(), short, 256), Err(ProverError::GateChallengeCount));
    assert_eq!(
        p.execute_relation_check_rounds(Fe::one(), gates(), 300),
        Ok(RelationCheckSetup { log_circuit_size: 5, commitment_key_size: 512 })
    );
}

#[test]
fn prover_invalid_sizes() {
    assert_eq!(EccvmProver::new(3, 1).err(), Some(ProverError::InvalidCircuitSize));
    assert_eq!(EccvmProver::new(24, 1).err(), Some(ProverError::InvalidCircuitSize));
    assert_eq!(EccvmProver::new(16, 17).err(), Some(ProverError::InvalidCircuitSize));
    assert!(EccvmProver::new(4, 0).is_ok());
}

#[test]
fn prover_wire_active_ranges() {
    let p = EccvmProver::new(64, 20).unwrap();
    assert_eq!(p.wire_active_ranges(64), vec![(0, 20), (60, 64)]);
    assert_eq!(p.wire_active_ranges(63), vec![(1, 21), (60, 64)]);
}

#[test]
fn msb_values() {
    assert_eq!(get_msb64(1), 0);
    assert_eq!(get_msb64(2), 1);
    assert_eq!(get_msb64(255), 7);
    assert_eq!(get_msb64(256), 8);
    assert_eq!(get_msb64(u64::MAX), 63);
}

#[test]
fn wnaf_digit() {
    assert_eq!(Utils::convert_to_wnaf(&Fe::from_u64(3), &Fe::from_u64(3)), Fe::from_u64(15));
    assert_eq!(Utils::convert_to_wnaf(&Fe::from_u64(1), &Fe::from_u64(0)), Fe::zero().sub(&Fe::from_u64(7)));
    assert_eq!(Utils::convert_to_wnaf(&Fe::zero(), &Fe::zero()), Fe::zero().sub(&Fe::from_u64(15)));
}

#[test]
fn set_relation_not_implemented() {
    let mut acc = EccSetRelation::zero_accumulator();
    let r = EccSetRelation::accumulate(&mut acc, &vec![], &RelationParameters::zero(), &Fe::one());
    assert_eq!(r, Err(RelationError::NotImplemented));
    assert!(!EccSetRelation::skip(&vec![]));
}
