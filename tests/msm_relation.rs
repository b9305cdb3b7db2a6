use ark_bn254::{Fq, G1Affine, G1Projective};
use ark_ec::{AffineRepr, CurveGroup};
use ark_ff::{Field, PrimeField};
use eccvm_core::field::Fe;
use eccvm_core::msm_relation::{EccMsmRelation, MsmRow, MSM_NUM_SUBRELATIONS, MSM_PARTIAL_LENGTH};
use eccvm_core::params::RelationParameters;

fn fe(x: Fq) -> Fe {
    Fe::from_limbs(x.into_bigint().0).unwrap()
}

fn small(v: u64) -> Fe {
    Fe::from_u64(v)
}

fn point(k: u64) -> G1Affine {
    (G1Projective::from(G1Affine::generator()) * ark_bn254::Fr::from(k)).into_affine()
}

/// Slope of the chord through `a` and `b`.
fn slope(a: &G1Affine, b: &G1Affine) -> Fq {
    (b.y - a.y) * (b.x - a.x).inverse().unwrap()
}

struct Trace {
    relation: EccMsmRelation,
    rows: Vec<MsmRow>,
}

/// A one-point MSM: row 0 adds `q` to the offset generator, row 1 is the skew
/// row, which subtracts `p` (slice value seven).
fn one_point_msm() -> Trace {
    let offset = point(987654321);
    let q = point(5);
    let p = point(1);
    let minus_p = (-G1Projective::from(p)).into_affine();
    let acc1 = (G1Projective::from(offset) + G1Projective::from(q)).into_affine();
    let acc2 = (G1Projective::from(acc1) + G1Projective::from(minus_p)).into_affine();
    let relation = EccMsmRelation::new(fe(offset.x), fe(offset.y));

    let mut r0 = MsmRow::zero();
    r0.lagrange_first = small(1);
    r0.msm_transition = small(1);
    r0.q_add = small(1);
    r0.add1 = small(1);
    r0.x1 = fe(q.x);
    r0.y1 = fe(q.y);
    r0.lambda1 = fe(slope(&q, &offset));
    r0.collision_inverse1 = fe((q.x - offset.x).inverse().unwrap());
    r0.acc_x = fe(point(42).x);
    r0.acc_y = fe(point(42).y);
    r0.acc_x_shift = fe(acc1.x);
    r0.acc_y_shift = fe(acc1.y);
    r0.round = small(31);
    r0.round_shift = small(32);
    r0.q_skew_shift = small(1);
    r0.add1_shift = small(1);
    r0.msm_size = small(1);
    r0.pc = small(1);
    r0.pc_shift = small(1);
    r0.count_shift = small(1);

    let mut r1 = MsmRow::zero();
    r1.q_skew = small(1);
    r1.add1 = small(1);
    r1.slice1 = small(7);
    r1.x1 = fe(minus_p.x);
    r1.y1 = fe(minus_p.y);
    r1.lambda1 = fe(slope(&acc1, &minus_p));
    r1.collision_inverse1 = fe((minus_p.x - acc1.x).inverse().unwrap());
    r1.acc_x = fe(acc1.x);
    r1.acc_y = fe(acc1.y);
    r1.acc_x_shift = fe(acc2.x);
    r1.acc_y_shift = fe(acc2.y);
    r1.round = small(32);
    r1.count = small(1);
    r1.msm_transition_shift = small(1);
    r1.msm_size = small(1);
    r1.pc = small(1);
    Trace { relation, rows: vec![r0, r1] }
}

fn accumulate_row(t: &Trace, row: &MsmRow, scaling: u64) -> Vec<Vec<Fe>> {
    let mut acc = EccMsmRelation::zero_accumulator();
    let input = vec![*row; MSM_PARTIAL_LENGTH];
    t.relation.accumulate(&mut acc, &input, &RelationParameters::zero(), &small(scaling));
    acc.slots.iter().map(|s| s.evaluations.clone()).collect()
}

fn all_zero(v: &[Vec<Fe>]) -> bool {
    v.iter().all(|s| s.iter().all(|x| x.is_zero()))
}

#[test]
fn msm_honest_one_point_trace_accumulates_zero() {
    let t = one_point_msm();
    for row in &t.rows {
        let values = t.relation.subrelation_values(row);
        assert_eq!(values.len(), MSM_NUM_SUBRELATIONS);
        assert!(values.iter().all(|v| v.is_zero()));
        assert!(all_zero(&accumulate_row(&t, row, 12345)));
    }
}

#[test]
fn msm_missing_first_add_is_caught() {
    let t = one_point_msm();
    let mut row = t.rows[0];
    row.add1 = Fe::zero();
    let acc = accumulate_row(&t, &row, 1);
    let minus_one = Fe::zero().sub(&Fe::one());
    assert!(acc[32].iter().all(|v| *v == minus_one));
}

#[test]
fn msm_addition_gap_is_caught() {
    let t = one_point_msm();
    let mut row = t.rows[0];
    row.add1 = Fe::zero();
    row.add2 = Fe::one();
    row.add3 = Fe::one();
    let acc = accumulate_row(&t, &row, 3);
    assert!(acc[28].iter().all(|v| *v == small(3)));
    assert!(acc[29].iter().all(|v| v.is_zero()));
}

#[test]
fn msm_round_kinds_exclusive() {
    let t = one_point_msm();
    let mut row = t.rows[0];
    row.q_double = Fe::one();
    let values = t.relation.subrelation_values(&row);
    assert_eq!(values[17], small(1));
}

#[test]
fn msm_wrong_accumulator_output_is_caught() {
    let t = one_point_msm();
    let mut row = t.rows[0];
    row.acc_x_shift = row.acc_x_shift.add(&Fe::one());
    let values = t.relation.subrelation_values(&row);
    assert_eq!(values[0], small(1));
}

#[test]
fn msm_accumulate_adds_into_existing() {
    let t = one_point_msm();
    let mut row = t.rows[0];
    row.q_double = Fe::one();
    let mut acc = EccMsmRelation::zero_accumulator();
    acc.slots[17].evaluations[2] = small(10);
    let input = vec![row; MSM_PARTIAL_LENGTH];
    t.relation.accumulate(&mut acc, &input, &RelationParameters::zero(), &small(4));
    assert_eq!(acc.slots[17].evaluations[2], small(14));
    assert_eq!(acc.slots[17].evaluations[0], small(4));
}

#[test]
fn msm_verify_accumulate_matches() {
    let t = one_point_msm();
    let mut row = t.rows[1];
    row.slice2 = small(3);
    let mut evals = vec![Fe::one(); MSM_NUM_SUBRELATIONS];
    t.relation.verify_accumulate(&mut evals, &row, &RelationParameters::zero(), &small(2));
    let values = t.relation.subrelation_values(&row);
    for i in 0..MSM_NUM_SUBRELATIONS {
        assert_eq!(evals[i], Fe::one().add(&values[i].mul(&small(2))));
    }
    assert_eq!(values[14], small(3));
    assert_eq!(evals[14], small(7));
}

#[test]
fn msm_never_skips() {
    let t = one_point_msm();
    assert!(!t.relation.skip(&t.rows));
}

/// Tangent slope at `a`: `3x^2 / 2y`.
fn tangent(a: &G1Affine) -> Fq {
    (a.x * a.x * Fq::from(3u64)) * (a.y + a.y).inverse().unwrap()
}

#[test]
fn msm_honest_double_row_accumulates_zero() {
    let t = one_point_msm();
    let start = point(11);
    let mut pts = vec![start];
    for _ in 0..4 {
        let last = *pts.last().unwrap();
        pts.push((G1Projective::from(last) + G1Projective::from(last)).into_affine());
    }
    let mut r = MsmRow::zero();
    r.q_double = small(1);
    r.acc_x = fe(start.x);
    r.acc_y = fe(start.y);
    r.lambda1 = fe(tangent(&pts[0]));
    r.lambda2 = fe(tangent(&pts[1]));
    r.lambda3 = fe(tangent(&pts[2]));
    r.lambda4 = fe(tangent(&pts[3]));
    r.acc_x_shift = fe(pts[4].x);
    r.acc_y_shift = fe(pts[4].y);
    r.q_add_shift = small(1);
    r.add1_shift = small(1);
    r.round = small(5);
    r.round_shift = small(5);
    r.count = small(3);
    r.count_shift = small(3);
    let values = t.relation.subrelation_values(&r);
    assert!(values.iter().all(|v| v.is_zero()));
    assert!(all_zero(&accumulate_row(&t, &r, 77)));
    // a double that is not followed by an add is caught
    r.q_add_shift = Fe::zero();
    assert_eq!(t.relation.subrelation_values(&r)[23], small(1));
}

#[test]
fn msm_idle_row_accumulates_zero() {
    let t = one_point_msm();
    let r = MsmRow::zero();
    assert!(all_zero(&accumulate_row(&t, &r, 5)));
}
