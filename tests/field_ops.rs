use eccvm_core::field::Fe;

fn fe(v: u64) -> Fe {
    Fe::from_u64(v)
}

fn minus(v: u64) -> Fe {
    Fe::zero().sub(&fe(v))
}

const MODULUS: [u64; 4] = [0x3c208c16d87cfd47, 0x97816a916871ca8d, 0xb85045b68181585d, 0x30644e72e131a029];

#[test]
fn field_add_sub_mul_exact() {
    assert_eq!(fe(2).add(&fe(3)), fe(5));
    assert_eq!(fe(7).sub(&fe(3)), fe(4));
    assert_eq!(fe(6).mul(&fe(7)), fe(42));
    assert_eq!(fe(5).neg().add(&fe(5)), Fe::zero());
}

#[test]
fn field_wraps_at_modulus() {
    let mut top = MODULUS;
    top[0] -= 1;
    let p_minus_one = Fe::from_limbs(top).unwrap();
    assert_eq!(p_minus_one.add(&fe(1)), Fe::zero());
    assert_eq!(p_minus_one, minus(1));
    assert_eq!(Fe::zero().sub(&fe(1)).limbs(), top);
    assert_eq!(p_minus_one.mul(&p_minus_one), fe(1));
}

#[test]
fn field_from_limbs_rejects_modulus() {
    assert!(Fe::from_limbs(MODULUS).is_none());
    assert_eq!(Fe::from_limbs([9, 0, 0, 0]), Some(fe(9)));
}

#[test]
fn field_inverse_of_seven() {
    let inv = fe(7).inverse().unwrap();
    assert_ne!(inv, fe(7));
    assert_eq!(inv.mul(&fe(7)), fe(1));
    assert!(Fe::zero().inverse().is_none());
}

#[test]
fn field_bytes_round_trip() {
    let x = fe(0x0102030405060708);
    let b = x.to_bytes();
    assert_eq!(b.len(), 32);
    assert_eq!(&b[..8], &[8, 7, 6, 5, 4, 3, 2, 1]);
    assert!(b[8..].iter().all(|v| *v == 0));
    assert_eq!(Fe::from_bytes(&b), Some(x));
    let y = minus(1);
    assert_eq!(Fe::from_bytes(&y.to_bytes()), Some(y));
}

#[test]
fn field_from_bytes_rejects_non_canonical() {
    let b = [0xffu8; 32];
    assert!(Fe::from_bytes(&b).is_none());
}

#[test]
fn field_equals_and_is_zero() {
    assert!(fe(3).equals(&fe(3)));
    assert!(!fe(3).equals(&fe(4)));
    assert!(Fe::zero().is_zero());
    assert!(!fe(1).is_zero());
}

