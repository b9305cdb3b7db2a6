use eccvm_core::rep3::{BigNat, Rep3BigUintShare, MODULUS_BIT_SIZE};

fn num(v: u64) -> BigNat {
    BigNat::from_le_bits((0..64).map(|i| (v >> i) & 1 == 1).collect())
}

fn wide(bits: usize) -> BigNat {
    let mut b = vec![false; bits];
    b[0] = true;
    b[bits - 1] = true;
    BigNat::from_le_bits(b)
}

fn pair(s: &Rep3BigUintShare) -> (Vec<bool>, Vec<bool>) {
    (s.a.to_le_bits(), s.b.to_le_bits())
}

#[test]
fn rep3_new_and_ab() {
    let s = Rep3BigUintShare::new(num(5), num(3));
    let (a, b) = s.ab();
    assert_eq!(a, num(5));
    assert_eq!(b, num(3));
}

#[test]
fn rep3_zero_share() {
    let z = Rep3BigUintShare::zero_share();
    assert_eq!(z.a, BigNat::zero());
    assert_eq!(z.b, BigNat::zero());
    assert!(z.a.to_le_bits().is_empty());
}

#[test]
fn rep3_to_le_bits() {
    let s = Rep3BigUintShare::new(num(5), num(3));
    let bits = s.to_le_bits();
    assert_eq!(bits.len(), 64);
    assert_eq!(pair(&bits[0]), (vec![true], vec![true]));
    assert_eq!(pair(&bits[1]), (vec![], vec![true]));
    assert_eq!(pair(&bits[2]), (vec![true], vec![]));
    assert!(bits[3..].iter().all(|x| pair(x) == (vec![], vec![])));
}

#[test]
fn rep3_to_le_bits_stops_at_shorter_share() {
    assert!(Rep3BigUintShare::new(BigNat::zero(), num(3)).to_le_bits().is_empty());
    let s = Rep3BigUintShare::new(wide(100), num(1));
    assert_eq!(s.to_le_bits().len(), 64);
}

#[test]
fn rep3_to_le_bits_capped_at_modulus_size() {
    let s = Rep3BigUintShare::new(wide(300), wide(290));
    let bits = s.to_le_bits();
    assert_eq!(bits.len(), MODULUS_BIT_SIZE);
    assert_eq!(pair(&bits[0]), (vec![true], vec![true]));
}

#[test]
fn rep3_to_le_bits_padded() {
    let s = Rep3BigUintShare::new(num(6), num(7));
    let bits = s.to_le_bits_padded(70);
    assert_eq!(bits.len(), 70);
    assert_eq!(pair(&bits[0]), (vec![], vec![]));
    assert_eq!(pair(&bits[1]), (vec![true], vec![]));
    assert_eq!(pair(&bits[2]), (vec![true], vec![]));
    assert!(bits[3..].iter().all(|x| pair(x) == (vec![], vec![])));
    assert_eq!(s.to_le_bits_padded(10).len(), 64);
    assert_eq!(Rep3BigUintShare::new(BigNat::zero(), num(1)).to_le_bits_padded(3).len(), 3);
}

#[test]
fn rep3_from_le_bits_round_trip() {
    let s = Rep3BigUintShare::new(num(0xdead_beef), num(12345));
    let back = Rep3BigUintShare::from_le_bits(&s.to_le_bits());
    assert_eq!(back, s);
}

#[test]
fn rep3_from_le_bits_xors_wide_shares() {
    // (3, 1) then (1, 2), most significant last: 1*2 ^ 3 = 1, 2*2 ^ 1 = 5
    let bits = vec![Rep3BigUintShare::new(num(3), num(1)), Rep3BigUintShare::new(num(1), num(2))];
    let r = Rep3BigUintShare::from_le_bits(&bits);
    assert_eq!(r, Rep3BigUintShare::new(num(1), num(5)));
    assert_eq!(Rep3BigUintShare::from_le_bits(&[]), Rep3BigUintShare::zero_share());
}

#[test]
fn big_nat_xor_and_shift() {
    assert_eq!(num(6).xor(&num(3)), num(5));
    assert_eq!(num(5).xor(&num(5)), BigNat::zero());
    assert_eq!(num(5).shl1(), num(10));
    assert_eq!(BigNat::zero().shl1(), BigNat::zero());
    assert_eq!(num(1).digit_bits().len(), 64);
    assert_eq!(wide(65).digit_bits().len(), 128);
}
