//! Replicated secret shares of packed bit vectors: each party holds its own
//! additive share and the previous party's, both natural numbers.
use vstd::prelude::*;

verus! {

/// Bit size of the field's modulus: the widest bit decomposition of a share.
pub const MODULUS_BIT_SIZE: usize = 254;

/// Bits per digit of a natural number's machine representation.
pub const DIGIT_BITS: usize = 64;

/// The bit sequence without its trailing zeros.
pub open spec fn trim(s: Seq<bool>) -> Seq<bool>
    decreases s.len(),
{
    if s.len() > 0 && !s.last() {
        trim(s.drop_last())
    } else {
        s
    }
}

/// Bit `i` of a little-endian bit sequence, zero past its end.
pub open spec fn bit_at(s: Seq<bool>, i: int) -> bool {
    0 <= i < s.len() && s[i]
}

/// Bitwise exclusive or, without trailing zeros.
pub open spec fn xor_bits(a: Seq<bool>, b: Seq<bool>) -> Seq<bool> {
    let n = if a.len() >= b.len() { a.len() } else { b.len() };
    trim(Seq::new(n, |i: int| bit_at(a, i) != bit_at(b, i)))
}

/// Doubling: a zero bit shifted in at the bottom.
pub open spec fn shl1_bits(a: Seq<bool>) -> Seq<bool> {
    if a.len() == 0 {
        a
    } else {
        seq![false] + a
    }
}

/// The bits of the machine representation: the bits padded with zeros to a
/// whole number of 64-bit digits.
pub open spec fn digit_bits(a: Seq<bool>) -> Seq<bool> {
    Seq::new(digit_count(a.len()) * 64, |i: int| bit_at(a, i))
}

/// The number of 64-bit digits that `len` bits take.
pub open spec fn digit_count(len: nat) -> nat {
    ((len + 63) / 64) as nat
}

/// A natural number, held as its little-endian bits without trailing zeros.
#[derive(Clone, Debug, PartialEq, Eq, Hash)]
pub struct BigNat {
    bits: Vec<bool>,
}

impl View for BigNat {
    type V = Seq<bool>;

    closed spec fn view(&self) -> Seq<bool> {
        self.bits@
    }
}

impl BigNat {
    /// No trailing zero bit.
    pub closed spec fn wf(&self) -> bool {
        self.bits@.len() == 0 || self.bits@.last()
    }

    pub fn zero() -> (r: BigNat)
        ensures
            r.wf(),
            r@ == Seq::<bool>::empty(),
    {
        BigNat { bits: Vec::new() }
    }

    /// The number zero or one.
    pub fn from_bit(b: bool) -> (r: BigNat)
        ensures
            r.wf(),
            r@ == (if b { seq![true] } else { Seq::<bool>::empty() }),
    {
        let mut bits: Vec<bool> = Vec::new();
        if b {
            bits.push(true);
        }
        let r = BigNat { bits };
        assert(r@ =~= (if b { seq![true] } else { Seq::<bool>::empty() }));
        r
    }

    /// The number with the given little-endian bits; trailing zeros are
    /// dropped.
    pub fn from_le_bits(bits: Vec<bool>) -> (r: BigNat)
        ensures
            r.wf(),
            r@ == trim(bits@),
    {
        let mut bits = bits;
        let ghost orig = bits@;
        while bits.len() > 0 && !bits[bits.len() - 1]
            invariant
                trim(bits@) == trim(orig),
            decreases bits.len(),
        {
            let ghost before = bits@;
            bits.pop();
            assert(bits@ =~= before.drop_last());
        }
        let r = BigNat { bits };
        proof {
            assert(r.bits@.len() == 0 || r.bits@.last());
        }
        r
    }

    /// The little-endian bits, without trailing zeros.
    pub fn to_le_bits(&self) -> (r: Vec<bool>)
        ensures
            r@ == self@,
    {
        let mut r: Vec<bool> = Vec::new();
        let mut i: usize = 0;
        while i < self.bits.len()
            invariant
                i <= self.bits.len(),
                r@ == self.bits@.take(i as int),
            decreases self.bits.len() - i,
        {
            r.push(self.bits[i]);
            assert(self.bits@.take(i + 1) =~= self.bits@.take(i as int).push(self.bits@[i as int]));
            i = i + 1;
        }
        assert(self.bits@.take(i as int) =~= self.bits@);
        r
    }

    /// The bits of the machine representation, a whole number of 64-bit
    /// digits.
    pub fn digit_bits(&self) -> (r: Vec<bool>)
        requires
            self@.len() <= usize::MAX - DIGIT_BITS,
        ensures
            r@ == digit_bits(self@),
    {
        let n = self.bits.len();
        let digits = n / DIGIT_BITS + if n % DIGIT_BITS == 0 { 0 } else { 1 };
        proof {
            assert(digits == digit_count(n as nat));
            assert(digits * DIGIT_BITS <= n + DIGIT_BITS);
        }
        let total = digits * DIGIT_BITS;
        let mut r: Vec<bool> = Vec::new();
        let mut i: usize = 0;
        while i < total
            invariant
                i <= total,
                n == self.bits@.len(),
                total == digits * DIGIT_BITS,
                digits == digit_count(n as nat),
                r.len() == i,
                forall|j: int| 0 <= j < i ==> #[trigger] r@[j] == bit_at(self.bits@, j),
            decreases total - i,
        {
            r.push(i < n && self.bits[i]);
            i = i + 1;
        }
        assert(r@ =~= digit_bits(self@));
        r
    }

    /// Twice the number.
    pub fn shl1(&self) -> (r: BigNat)
        requires
            self.wf(),
        ensures
            r.wf(),
            r@ == shl1_bits(self@),
    {
        if self.bits.len() == 0 {
            return BigNat::zero();
        }
        let mut bits: Vec<bool> = Vec::new();
        bits.push(false);
        let mut i: usize = 0;
        while i < self.bits.len()
            invariant
                i <= self.bits.len(),
                bits@ == seq![false] + self.bits@.take(i as int),
            decreases self.bits.len() - i,
        {
            bits.push(self.bits[i]);
            assert(seq![false] + self.bits@.take(i + 1) =~= (seq![false] + self.bits@.take(i as int)).push(
                self.bits@[i as int],
            ));
            i = i + 1;
        }
        assert(self.bits@.take(i as int) =~= self.bits@);
        BigNat { bits }
    }

    /// The bitwise exclusive or.
    pub fn xor(&self, o: &BigNat) -> (r: BigNat)
        ensures
            r.wf(),
            r@ == xor_bits(self@, o@),
    {
        let n = if self.bits.len() >= o.bits.len() { self.bits.len() } else { o.bits.len() };
        let mut bits: Vec<bool> = Vec::new();
        let mut i: usize = 0;
        while i < n
            invariant
                i <= n,
                n == (if self.bits@.len() >= o.bits@.len() { self.bits@.len() } else { o.bits@.len() }),
                bits.len() == i,
                forall|j: int| 0 <= j < i ==> #[trigger] bits@[j] == (bit_at(self.bits@, j) != bit_at(o.bits@, j)),
            decreases n - i,
        {
            let x = i < self.bits.len() && self.bits[i];
            let y = i < o.bits.len() && o.bits[i];
            bits.push(x != y);
            i = i + 1;
        }
        let ghost full = bits@;
        assert(full =~= Seq::new(n as nat, |j: int| bit_at(self@, j) != bit_at(o@, j)));
        BigNat::from_le_bits(bits)
    }
}

/// A share of a packed vector of replicated shared bits: this party's
/// additive share and the previous party's.
#[derive(Clone, Debug, PartialEq, Eq, Hash)]
pub struct Rep3BigUintShare {
    /// Share of this party
    pub a: BigNat,
    /// Share of the previous party
    pub b: BigNat,
}

/// The result of folding the shares from the most significant down: each step
/// doubles both components and xors in the next share's.
pub open spec fn fold_shl_xor(s: Seq<(Seq<bool>, Seq<bool>)>) -> (Seq<bool>, Seq<bool>)
    decreases s.len(),
{
    if s.len() == 0 {
        (Seq::empty(), Seq::empty())
    } else {
        let rest = fold_shl_xor(s.drop_first());
        (xor_bits(shl1_bits(rest.0), s[0].0), xor_bits(shl1_bits(rest.1), s[0].1))
    }
}

/// The components of each share.
pub open spec fn share_views(s: Seq<Rep3BigUintShare>) -> Seq<(Seq<bool>, Seq<bool>)> {
    s.map_values(|x: Rep3BigUintShare| (x.a@, x.b@))
}

/// The share of bit `x` for this party and bit `y` for the previous one.
pub open spec fn bit_share(x: bool, y: bool) -> (Seq<bool>, Seq<bool>) {
    (if x { seq![true] } else { Seq::empty() }, if y { seq![true] } else { Seq::empty() })
}

impl Rep3BigUintShare {
    pub open spec fn wf(&self) -> bool {
        self.a.wf() && self.b.wf()
    }

    /// Constructs the type from two additive shares.
    pub fn new(a: BigNat, b: BigNat) -> (r: Rep3BigUintShare)
        ensures
            r.a == a,
            r.b == b,
    {
        Rep3BigUintShare { a, b }
    }

    /// Constructs a zero share.
    pub fn zero_share() -> (r: Rep3BigUintShare)
        ensures
            r.wf(),
            r.a@ == Seq::<bool>::empty(),
            r.b@ == Seq::<bool>::empty(),
    {
        Rep3BigUintShare { a: BigNat::zero(), b: BigNat::zero() }
    }

    /// Unwraps the type into two additive shares.
    pub fn ab(self) -> (r: (BigNat, BigNat))
        ensures
            r.0 == self.a,
            r.1 == self.b,
    {
        (self.a, self.b)
    }

    /// The shares of the bits, least significant first: bit `i` of both
    /// components, for as many bits as both machine representations have, at
    /// most `MODULUS_BIT_SIZE`.
    pub fn to_le_bits(&self) -> (r: Vec<Rep3BigUintShare>)
        requires
            self.a@.len() <= usize::MAX - DIGIT_BITS,
            self.b@.len() <= usize::MAX - DIGIT_BITS,
        ensures
            r.len() == min3(digit_bits(self.a@).len(), digit_bits(self.b@).len(), MODULUS_BIT_SIZE as nat),
            forall|i: int| 0 <= i < r.len() ==> (#[trigger] r@[i]).wf(),
            forall|i: int|
                0 <= i < r.len() ==> #[trigger] share_views(r@)[i] == bit_share(
                    digit_bits(self.a@)[i],
                    digit_bits(self.b@)[i],
                ),
    {
        let bits_a = self.a.digit_bits();
        let bits_b = self.b.digit_bits();
        let mut n = if bits_a.len() <= bits_b.len() { bits_a.len() } else { bits_b.len() };
        if n > MODULUS_BIT_SIZE {
            n = MODULUS_BIT_SIZE;
        }
        let mut r: Vec<Rep3BigUintShare> = Vec::new();
        let mut i: usize = 0;
        while i < n
            invariant
                i <= n,
                n <= bits_a.len(),
                n <= bits_b.len(),
                bits_a@ == digit_bits(self.a@),
                bits_b@ == digit_bits(self.b@),
                r.len() == i,
                forall|j: int| 0 <= j < i ==> (#[trigger] r@[j]).wf(),
                forall|j: int|
                    0 <= j < i ==> #[trigger] share_views(r@)[j] == bit_share(bits_a@[j], bits_b@[j]),
            decreases n - i,
        {
            let x = Rep3BigUintShare::new(BigNat::from_bit(bits_a[i]), BigNat::from_bit(bits_b[i]));
            let ghost before = share_views(r@);
            r.push(x);
            assert(share_views(r@) =~= before.push((x.a@, x.b@)));
            i = i + 1;
        }
        r
    }

    /// The shares of the bits of this party's component, least significant
    /// first, at most `MODULUS_BIT_SIZE` of them, padded with zeros to at
    /// least `num_bits`; the previous party's share of each is zero.
    pub fn to_le_bits_padded(&self, num_bits: usize) -> (r: Vec<Rep3BigUintShare>)
        requires
            self.a@.len() <= usize::MAX - DIGIT_BITS,
        ensures
            r.len() == max2(min2(digit_bits(self.a@).len(), MODULUS_BIT_SIZE as nat), num_bits as nat),
            forall|i: int| 0 <= i < r.len() ==> (#[trigger] r@[i]).wf(),
            forall|i: int|
                0 <= i < r.len() ==> #[trigger] share_views(r@)[i] == bit_share(
                    i < min2(digit_bits(self.a@).len(), MODULUS_BIT_SIZE as nat) && digit_bits(self.a@)[i],
                    false,
                ),
    {
        let bits = self.a.digit_bits();
        let taken = if bits.len() > MODULUS_BIT_SIZE { MODULUS_BIT_SIZE } else { bits.len() };
        let n = if taken >= num_bits { taken } else { num_bits };
        let mut r: Vec<Rep3BigUintShare> = Vec::new();
        let mut i: usize = 0;
        while i < n
            invariant
                i <= n,
                taken <= bits.len(),
                taken == min2(bits@.len(), MODULUS_BIT_SIZE as nat),
                bits@ == digit_bits(self.a@),
                r.len() == i,
                forall|j: int| 0 <= j < i ==> (#[trigger] r@[j]).wf(),
                forall|j: int|
                    0 <= j < i ==> #[trigger] share_views(r@)[j] == bit_share(j < taken && bits@[j], false),
            decreases n - i,
        {
            let bit = i < taken && bits[i];
            let x = Rep3BigUintShare::new(BigNat::from_bit(bit), BigNat::from_bit(false));
            let ghost before = share_views(r@);
            r.push(x);
            assert(share_views(r@) =~= before.push((x.a@, x.b@)));
            i = i + 1;
        }
        r
    }

    /// The share whose bits, least significant first, are the given shares:
    /// from the last down, both components are doubled and the next share's
    /// xored in.
    pub fn from_le_bits(bits: &[Rep3BigUintShare]) -> (r: Rep3BigUintShare)
        requires
            forall|i: int| 0 <= i < bits@.len() ==> (#[trigger] bits@[i]).wf(),
        ensures
            r.wf(),
            (r.a@, r.b@) == fold_shl_xor(share_views(bits@)),
    {
        let mut acc = Rep3BigUintShare::zero_share();
        let mut i: usize = bits.len();
        proof {
            assert(share_views(bits@).subrange(i as int, bits@.len() as int) =~= Seq::empty());
        }
        while i > 0
            invariant
                i <= bits@.len(),
                forall|j: int| 0 <= j < bits@.len() ==> (#[trigger] bits@[j]).wf(),
                acc.wf(),
                (acc.a@, acc.b@) == fold_shl_xor(share_views(bits@).subrange(i as int, bits@.len() as int)),
            decreases i,
        {
            let bit = &bits[i - 1];
            let a = acc.a.shl1().xor(&bit.a);
            let b = acc.b.shl1().xor(&bit.b);
            proof {
                let s = share_views(bits@).subrange(i - 1, bits@.len() as int);
                assert(s.drop_first() =~= share_views(bits@).subrange(i as int, bits@.len() as int));
                assert(s[0] == (bits@[i - 1].a@, bits@[i - 1].b@));
            }
            acc = Rep3BigUintShare::new(a, b);
            i = i - 1;
        }
        assert(share_views(bits@).subrange(0, bits@.len() as int) =~= share_views(bits@));
        acc
    }
}

pub open spec fn min2(a: nat, b: nat) -> nat {
    if a <= b { a } else { b }
}

pub open spec fn max2(a: nat, b: nat) -> nat {
    if a >= b { a } else { b }
}

pub open spec fn min3(a: nat, b: nat, c: nat) -> nat {
    min2(min2(a, b), c)
}

} // verus!
