//! Elements of the BN254 base field, the field over which the ECCVM trace
//! lives, and the modular operations the relations are written in.
use ark_bn254::Fq;
use ark_ff::{BigInt, Field, PrimeField};
use ark_serialize::{CanonicalDeserialize, CanonicalSerialize};
use vstd::prelude::*;

verus! {

/// The field's prime order.
pub open spec fn p() -> int {
    limbs_value([0x3c208c16d87cfd47, 0x97816a916871ca8d, 0xb85045b68181585d, 0x30644e72e131a029])
}

/// Two to the 64th power, the radix of a limb.
pub open spec fn radix() -> int {
    18446744073709551616
}

/// The integer that four little-endian 64-bit limbs spell.
pub open spec fn limbs_value(l: [u64; 4]) -> int {
    l[0] as int + radix() * (l[1] as int + radix() * (l[2] as int + radix() * l[3] as int))
}

/// Field addition on canonical representatives.
pub open spec fn fadd(a: int, b: int) -> int {
    (a + b) % p()
}

/// Field subtraction on canonical representatives.
pub open spec fn fsub(a: int, b: int) -> int {
    (a - b) % p()
}

/// Field multiplication on canonical representatives.
pub open spec fn fmul(a: int, b: int) -> int {
    (a * b) % p()
}

/// Field negation on a canonical representative.
pub open spec fn fneg(a: int) -> int {
    (-a) % p()
}

/// The canonical representative of an integer.
pub open spec fn fe(a: int) -> int {
    a % p()
}

/// Whether `b` is a multiplicative inverse of `a` in the field.
pub open spec fn is_inverse(a: int, b: int) -> bool {
    0 <= b < p() && fmul(a, b) == 1
}

/// Number of bytes of a serialized field element.
pub const FE_BYTES: usize = 32;

/// The `n` little-endian bytes of `v`.
pub open spec fn le_bytes(v: int, n: nat) -> Seq<u8>
    decreases n,
{
    if n == 0 {
        Seq::empty()
    } else {
        seq![(v % 256) as u8] + le_bytes(v / 256, (n - 1) as nat)
    }
}

/// The integer that little-endian bytes spell.
pub open spec fn le_value(s: Seq<u8>) -> int
    decreases s.len(),
{
    if s.len() == 0 {
        0
    } else {
        s[0] as int + 256 * le_value(s.drop_first())
    }
}

/// A field element, held as the little-endian limbs of its canonical
/// representative.
#[derive(Clone, Copy, Debug, PartialEq, Eq, Hash)]
pub struct Fe {
    limbs: [u64; 4],
}

impl Fe {
    /// The integer this element stands for.
    pub closed spec fn val(self) -> int {
        limbs_value(self.limbs)
    }

    /// The representative is canonical: below the prime.
    pub open spec fn wf(self) -> bool {
        0 <= self.val() < p()
    }

    /// The element with the given small value.
    pub fn from_u64(v: u64) -> (r: Fe)
        ensures
            r.wf(),
            r.val() == v as int,
    {
        let r = Fe { limbs: [v, 0, 0, 0] };
        assert(r.val() == v as int);
        r
    }

    pub fn zero() -> (r: Fe)
        ensures
            r.wf(),
            r.val() == 0,
    {
        Fe::from_u64(0)
    }

    pub fn one() -> (r: Fe)
        ensures
            r.wf(),
            r.val() == 1,
    {
        Fe::from_u64(1)
    }

    /// The limbs of the canonical representative, least significant first.
    pub fn limbs(&self) -> (r: [u64; 4])
        ensures
            limbs_value(r) == self.val(),
    {
        self.limbs
    }

    /// Relies on ark-ff's `PrimeField::from_bigint` for BN254's base field:
    /// it accepts exactly the integers below the modulus.
    #[verifier::external_body]
    pub fn from_limbs(l: [u64; 4]) -> (r: Option<Fe>)
        ensures
            r.is_some() <==> limbs_value(l) < p(),
            r matches Some(x) ==> x.wf() && x.val() == limbs_value(l),
    {
        match Fq::from_bigint(BigInt::new(l)) {
            Some(_) => Some(Fe { limbs: l }),
            None => None,
        }
    }

    /// Relies on the `Add` impl of ark-ff's BN254 base field.
    #[verifier::external_body]
    pub fn add(&self, o: &Fe) -> (r: Fe)
        requires
            self.wf(),
            o.wf(),
        ensures
            r.wf(),
            r.val() == fadd(self.val(), o.val()),
    {
        let s = Fq::from(BigInt::new(self.limbs)) + Fq::from(BigInt::new(o.limbs));
        Fe { limbs: s.into_bigint().0 }
    }

    /// Relies on the `Sub` impl of ark-ff's BN254 base field.
    #[verifier::external_body]
    pub fn sub(&self, o: &Fe) -> (r: Fe)
        requires
            self.wf(),
            o.wf(),
        ensures
            r.wf(),
            r.val() == fsub(self.val(), o.val()),
    {
        let s = Fq::from(BigInt::new(self.limbs)) - Fq::from(BigInt::new(o.limbs));
        Fe { limbs: s.into_bigint().0 }
    }

    /// Relies on the `Mul` impl of ark-ff's BN254 base field.
    #[verifier::external_body]
    pub fn mul(&self, o: &Fe) -> (r: Fe)
        requires
            self.wf(),
            o.wf(),
        ensures
            r.wf(),
            r.val() == fmul(self.val(), o.val()),
    {
        let s = Fq::from(BigInt::new(self.limbs)) * Fq::from(BigInt::new(o.limbs));
        Fe { limbs: s.into_bigint().0 }
    }

    /// Relies on the `Neg` impl of ark-ff's BN254 base field.
    #[verifier::external_body]
    pub fn neg(&self) -> (r: Fe)
        requires
            self.wf(),
        ensures
            r.wf(),
            r.val() == fneg(self.val()),
    {
        let s = -Fq::from(BigInt::new(self.limbs));
        Fe { limbs: s.into_bigint().0 }
    }

    /// Relies on ark-ff's `Field::inverse` for BN254's base field: `None`
    /// exactly for zero, else the multiplicative inverse.
    #[verifier::external_body]
    pub fn inverse(&self) -> (r: Option<Fe>)
        requires
            self.wf(),
        ensures
            r.is_none() <==> self.val() == 0,
            r matches Some(x) ==> x.wf() && is_inverse(self.val(), x.val()),
    {
        match Fq::from(BigInt::new(self.limbs)).inverse() {
            Some(x) => Some(Fe { limbs: x.into_bigint().0 }),
            None => None,
        }
    }

    /// Relies on ark-serialize's `CanonicalSerialize` for ark-ff's prime
    /// fields: the 32 little-endian bytes of the canonical representative.
    #[verifier::external_body]
    pub fn to_bytes(&self) -> (r: Vec<u8>)
        requires
            self.wf(),
        ensures
            r@ == le_bytes(self.val(), FE_BYTES as nat),
    {
        let mut out = Vec::new();
        Fq::from(BigInt::new(self.limbs)).serialize_compressed(&mut out).unwrap();
        out
    }

    /// Relies on ark-serialize's `CanonicalDeserialize` for ark-ff's prime
    /// fields: reads 32 little-endian bytes and refuses a value that is not
    /// below the modulus.
    #[verifier::external_body]
    pub fn from_bytes(b: &[u8]) -> (r: Option<Fe>)
        requires
            b@.len() == FE_BYTES,
        ensures
            r is Some <==> le_value(b@) < p(),
            r matches Some(x) ==> x.wf() && x.val() == le_value(b@),
    {
        match Fq::deserialize_compressed(b) {
            Ok(x) => Some(Fe { limbs: x.into_bigint().0 }),
            Err(_) => None,
        }
    }

    /// Equality of the field elements.
    pub fn equals(&self, o: &Fe) -> (r: bool)
        ensures
            r == (self.val() == o.val()),
    {
        let r = self.limbs[0] == o.limbs[0] && self.limbs[1] == o.limbs[1]
            && self.limbs[2] == o.limbs[2] && self.limbs[3] == o.limbs[3];
        proof {
            if self.val() == o.val() {
                lemma_limbs_injective(self.limbs, o.limbs);
                assert(self.limbs[0] == self.limbs@[0]);
            }
        }
        r
    }

    pub fn is_zero(&self) -> (r: bool)
        ensures
            r == (self.val() == 0),
    {
        self.equals(&Fe::zero())
    }
}

/// Reading back the `n` little-endian bytes of a value below `256^n` gives
/// the value.
pub proof fn lemma_le_round_trip(v: int, n: nat)
    requires
        0 <= v < pow256(n),
    ensures
        le_value(le_bytes(v, n)) == v,
        le_bytes(v, n).len() == n,
    decreases n,
{
    if n > 0 {
        let rest = le_bytes(v / 256, (n - 1) as nat);
        assert(v / 256 < pow256((n - 1) as nat)) by {
            vstd::arithmetic::div_mod::lemma_div_pos_is_pos(v, 256);
            vstd::arithmetic::div_mod::lemma_fundamental_div_mod(v, 256);
        }
        lemma_le_round_trip(v / 256, (n - 1) as nat);
        let s = le_bytes(v, n);
        assert(s.drop_first() =~= rest);
        vstd::arithmetic::div_mod::lemma_fundamental_div_mod(v, 256);
    }
}

/// `256^n`.
pub open spec fn pow256(n: nat) -> int
    decreases n,
{
    if n == 0 {
        1
    } else {
        256 * pow256((n - 1) as nat)
    }
}

/// The modulus is below `256^32`, so a canonical value fits the serialized
/// width.
pub proof fn lemma_p_fits()
    ensures
        p() < pow256(FE_BYTES as nat),
{
    reveal_with_fuel(pow256, 33);
}

/// The modulus exceeds one.
pub proof fn lemma_p_gt_one()
    ensures
        p() > 1,
{
}

/// Field reduction leaves a canonical value as it is.
pub proof fn lemma_canonical_mod(x: int)
    requires
        0 <= x < p(),
    ensures
        x % p() == x,
{
    vstd::arithmetic::div_mod::lemma_small_mod(x as nat, p() as nat);
}

/// Minus one in the field is `p - 1`.
pub proof fn lemma_minus_one()
    ensures
        fneg(1) == p() - 1,
        fsub(0, 1) == p() - 1,
{
    vstd::arithmetic::div_mod::lemma_fundamental_div_mod_converse(-1, p(), -1, p() - 1);
}

/// Adding a value in `(0, p)` changes a canonical value.
pub proof fn lemma_add_nonzero_changes(o: int, s: int)
    requires
        0 <= o < p(),
        0 < s < p(),
    ensures
        fadd(o, s) != o,
{
    if o + s < p() {
        lemma_canonical_mod(o + s);
    } else {
        vstd::arithmetic::div_mod::lemma_fundamental_div_mod_converse(o + s, p(), 1, o + s - p());
    }
}

/// `a` and `b` stand for the same field element.
pub open spec fn cong(a: int, b: int) -> bool {
    a % p() == b % p()
}

/// Each field operation agrees with its integer counterpart modulo `p`.
pub proof fn lemma_cong_ops(a: int, b: int)
    ensures
        cong(fadd(a, b), a + b),
        cong(fsub(a, b), a - b),
        cong(fmul(a, b), a * b),
        cong(fneg(a), -a),
        0 <= fadd(a, b) < p(),
        0 <= fsub(a, b) < p(),
        0 <= fmul(a, b) < p(),
        0 <= fneg(a) < p(),
{
    vstd::arithmetic::div_mod::lemma_mod_twice(a + b, p());
    vstd::arithmetic::div_mod::lemma_mod_twice(a - b, p());
    vstd::arithmetic::div_mod::lemma_mod_twice(a * b, p());
    vstd::arithmetic::div_mod::lemma_mod_twice(-a, p());
}

/// Congruence is kept by addition, subtraction and multiplication.
pub proof fn lemma_cong_compat(a: int, a2: int, b: int, b2: int)
    requires
        cong(a, a2),
        cong(b, b2),
    ensures
        cong(a + b, a2 + b2),
        cong(a - b, a2 - b2),
        cong(a * b, a2 * b2),
{
    vstd::arithmetic::div_mod::lemma_add_mod_noop(a, b, p());
    vstd::arithmetic::div_mod::lemma_add_mod_noop(a2, b2, p());
    vstd::arithmetic::div_mod::lemma_sub_mod_noop(a, b, p());
    vstd::arithmetic::div_mod::lemma_sub_mod_noop(a2, b2, p());
    vstd::arithmetic::div_mod::lemma_mul_mod_noop(a, b, p());
    vstd::arithmetic::div_mod::lemma_mul_mod_noop(a2, b2, p());
}

/// Congruent canonical values are equal.
pub proof fn lemma_cong_canonical(a: int, b: int)
    requires
        cong(a, b),
        0 <= a < p(),
        0 <= b < p(),
    ensures
        a == b,
{
    lemma_canonical_mod(a);
    lemma_canonical_mod(b);
}

/// Zero and one act on canonical values as they do on integers.
pub proof fn lemma_field_units(x: int)
    requires
        0 <= x < p(),
    ensures
        fmul(1, x) == x,
        fmul(x, 1) == x,
        fmul(0, x) == 0,
        fmul(x, 0) == 0,
        fadd(x, 0) == x,
        fadd(0, x) == x,
        fsub(x, 0) == x,
        fsub(x, x) == 0,
{
    lemma_canonical_mod(x);
    lemma_p_gt_one();
    lemma_canonical_mod(0);
}

/// Distinct limb arrays spell distinct integers.
pub proof fn lemma_limbs_injective(a: [u64; 4], b: [u64; 4])
    requires
        limbs_value(a) == limbs_value(b),
    ensures
        a@ == b@,
{
    let r = radix();
    let ta = a[1] as int + r * (a[2] as int + r * a[3] as int);
    let tb = b[1] as int + r * (b[2] as int + r * b[3] as int);
    assert(ta >= 0 && tb >= 0) by (nonlinear_arith)
        requires r > 0, ta == a[1] as int + r * (a[2] as int + r * a[3] as int),
            tb == b[1] as int + r * (b[2] as int + r * b[3] as int);
    lemma_digit_split(a[0] as int, ta, b[0] as int, tb);
    let ua = a[2] as int + r * a[3] as int;
    let ub = b[2] as int + r * b[3] as int;
    assert(ua >= 0 && ub >= 0) by (nonlinear_arith)
        requires r > 0, ua == a[2] as int + r * a[3] as int, ub == b[2] as int + r * b[3] as int;
    lemma_digit_split(a[1] as int, ua, b[1] as int, ub);
    lemma_digit_split(a[2] as int, a[3] as int, b[2] as int, b[3] as int);
    assert(a@ =~= b@);
}

proof fn lemma_digit_split(x0: int, xr: int, y0: int, yr: int)
    requires
        0 <= x0 < radix(),
        0 <= y0 < radix(),
        xr >= 0,
        yr >= 0,
        x0 + radix() * xr == y0 + radix() * yr,
    ensures
        x0 == y0,
        xr == yr,
{
    let r = radix();
    assert(x0 == y0 && xr == yr) by (nonlinear_arith)
        requires
            0 <= x0 < r,
            0 <= y0 < r,
            xr >= 0,
            yr >= 0,
            x0 + r * xr == y0 + r * yr;
}

} // verus!
