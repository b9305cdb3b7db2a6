use eccvm_core::accumulator::RelationAccumulator;
use eccvm_core::field::Fe;
use eccvm_core::msm_relation::{EccMsmRelation, MSM_NUM_SUBRELATIONS, MSM_PARTIAL_LENGTH};
use eccvm_core::set_relation::EccSetRelation;
use eccvm_core::univariate::Univariate;

fn uni(vs: &[u64]) -> Univariate {
    Univariate { evaluations: vs.iter().map(|v| Fe::from_u64(*v)).collect() }
}

fn sample() -> RelationAccumulator {
    RelationAccumulator { slots: vec![uni(&[1, 2, 3]), uni(&[4, 5]), uni(&[6])] }
}

fn values(a: &RelationAccumulator) -> Vec<Vec<Fe>> {
    a.slots.iter().map(|s| s.evaluations.clone()).collect()
}

#[test]
fn accumulator_scale_slotwise() {
    let mut a = sample();
    a.scale(&vec![Fe::from_u64(2), Fe::from_u64(3), Fe::from_u64(10)]);
    assert_eq!(values(&a), values(&RelationAccumulator { slots: vec![uni(&[2, 4, 6]), uni(&[12, 15]), uni(&[60])] }));
}

#[test]
fn accumulator_scale_twice_is_scale_by_product() {
    let w = vec![Fe::from_u64(2), Fe::from_u64(3), Fe::from_u64(5)];
    let v = vec![Fe::from_u64(7), Fe::from_u64(11), Fe::zero().sub(&Fe::one())];
    let mut twice = sample();
    twice.scale(&w);
    twice.scale(&v);
    let mut once = sample();
    let wv: Vec<Fe> = w.iter().zip(v.iter()).map(|(a, b)| a.mul(b)).collect();
    once.scale(&wv);
    assert_eq!(values(&twice), values(&once));
}

#[test]
fn accumulator_batch_with_units_is_sum() {
    let a = sample();
    let mut result = Univariate::zero(4);
    let ones = uni(&[1, 1, 1, 1]);
    a.extend_and_batch_univariates(&mut result, &ones, &Fe::one());
    // slot 0 extends to 1,2,3,4; slot 1 to 4,5,6,7; slot 2 to 6,6,6,6
    assert_eq!(result.evaluations, uni(&[11, 13, 15, 17]).evaluations);
}

#[test]
fn accumulator_bytes_round_trip() {
    let a = sample();
    let bytes = a.to_bytes();
    assert_eq!(bytes.len(), 6 * 32);
    let back = RelationAccumulator::from_bytes(&bytes, &vec![3, 2, 1]).unwrap();
    assert_eq!(values(&back), values(&a));
}

#[test]
fn accumulator_bytes_round_trip_msm_shape() {
    let mut a = EccMsmRelation::zero_accumulator();
    let w: Vec<Fe> = (0..MSM_NUM_SUBRELATIONS as u64).map(Fe::from_u64).collect();
    a.slots[5] = uni(&[9, 8, 7, 6, 5, 4, 3, 2]);
    a.slots[35].evaluations[7] = Fe::zero().sub(&Fe::from_u64(3));
    a.scale(&w);
    let bytes = a.to_bytes();
    assert_eq!(bytes.len(), MSM_NUM_SUBRELATIONS * MSM_PARTIAL_LENGTH * 32);
    let back = RelationAccumulator::from_bytes(&bytes, &vec![MSM_PARTIAL_LENGTH; MSM_NUM_SUBRELATIONS]).unwrap();
    assert_eq!(values(&back), values(&a));
}

#[test]
fn accumulator_from_bytes_rejects_bad_input() {
    let bytes = sample().to_bytes();
    assert!(RelationAccumulator::from_bytes(&bytes, &vec![3, 2]).is_none());
    assert!(RelationAccumulator::from_bytes(&bytes[..bytes.len() - 1], &vec![3, 2, 1]).is_none());
    let mut bad = bytes.clone();
    for b in bad[32..64].iter_mut() {
        *b = 0xff;
    }
    assert!(RelationAccumulator::from_bytes(&bad, &vec![3, 2, 1]).is_none());
}

#[test]
fn set_accumulator_shape() {
    let a = EccSetRelation::zero_accumulator();
    assert_eq!(a.slots.len(), 2);
    assert_eq!(a.slots[0].evaluations.len(), 22);
    assert_eq!(a.slots[1].evaluations.len(), 3);
}
