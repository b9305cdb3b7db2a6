//! The per-relation accumulator: one univariate slot per sub-identity, each
//! with its own width, combined by `scale` and `extend_and_batch_univariates`.
use crate::field::{fadd, fmul, le_bytes, le_value, lemma_le_round_trip, lemma_p_fits, p, Fe, FE_BYTES};
use crate::univariate::{all_wf, batched, extension, lemma_extension_canonical, vals, zeros, Univariate};
use vstd::prelude::*;

verus! {

/// The slots' evaluations, one sequence per sub-identity.
pub open spec fn slot_views(s: Seq<Univariate>) -> Seq<Seq<int>> {
    s.map_values(|u: Univariate| u@)
}

/// `result` after the first `n` slots were extended to its length and batched
/// into it in order, each times `poly` pointwise and times `c`.
pub open spec fn batch_slots(result: Seq<int>, slots: Seq<Seq<int>>, n: nat, poly: Seq<int>, c: int) -> Seq<int>
    decreases n,
{
    if n == 0 {
        result
    } else {
        let prev = batch_slots(result, slots, (n - 1) as nat, poly, c);
        batched(prev, extension(slots[n - 1], result.len()), poly, c)
    }
}

pub proof fn lemma_batch_slots_len(result: Seq<int>, slots: Seq<Seq<int>>, n: nat, poly: Seq<int>, c: int)
    ensures
        batch_slots(result, slots, n, poly, c).len() == result.len(),
    decreases n,
{
    if n > 0 {
        lemma_batch_slots_len(result, slots, (n - 1) as nat, poly, c);
    }
}

/// The slots' values one after the other, slot by slot.
pub open spec fn flat(s: Seq<Seq<int>>) -> Seq<int>
    decreases s.len(),
{
    if s.len() == 0 {
        Seq::empty()
    } else {
        flat(s.drop_last()) + s.last()
    }
}

/// The sum of the widths.
pub open spec fn total(ws: Seq<nat>) -> nat
    decreases ws.len(),
{
    if ws.len() == 0 {
        0
    } else {
        total(ws.drop_last()) + ws.last()
    }
}

/// The widths as natural numbers.
pub open spec fn nat_widths(ws: Seq<usize>) -> Seq<nat> {
    ws.map_values(|w: usize| w as nat)
}

/// A prefix of the widths sums to at most all of them.
pub proof fn lemma_total_prefix(ws: Seq<nat>, i: int)
    requires
        0 <= i <= ws.len(),
    ensures
        total(ws.take(i)) <= total(ws),
    decreases ws.len() - i,
{
    if i < ws.len() {
        lemma_total_prefix(ws, i + 1);
        assert(ws.take(i + 1).drop_last() =~= ws.take(i));
    } else {
        assert(ws.take(i) =~= ws);
    }
}

/// The widths of the slots.
pub open spec fn widths_of(s: Seq<Seq<int>>) -> Seq<nat> {
    s.map_values(|u: Seq<int>| u.len())
}

/// Each value serialized as `FE_BYTES` little-endian bytes, in order.
pub open spec fn encode_values(vs: Seq<int>) -> Seq<u8>
    decreases vs.len(),
{
    if vs.len() == 0 {
        Seq::empty()
    } else {
        encode_values(vs.drop_last()) + le_bytes(vs.last(), FE_BYTES as nat)
    }
}

/// The `j`-th chunk of `FE_BYTES` bytes.
pub open spec fn chunk(b: Seq<u8>, j: int) -> Seq<u8> {
    b.subrange(FE_BYTES * j, FE_BYTES * j + FE_BYTES)
}

/// The values that consecutive chunks of `FE_BYTES` little-endian bytes
/// spell.
pub open spec fn decode_values(b: Seq<u8>) -> Seq<int> {
    Seq::new(b.len() / FE_BYTES as nat, |j: int| le_value(chunk(b, j)))
}

/// Every chunk spells a value below the modulus.
pub open spec fn chunks_canonical(b: Seq<u8>) -> bool {
    forall|j: int| 0 <= j < b.len() / FE_BYTES as nat ==> #[trigger] le_value(chunk(b, j)) < p()
}

pub proof fn lemma_flat_len(s: Seq<Seq<int>>)
    ensures
        flat(s).len() == total(widths_of(s)),
    decreases s.len(),
{
    if s.len() > 0 {
        lemma_flat_len(s.drop_last());
        assert(widths_of(s).drop_last() =~= widths_of(s.drop_last()));
    }
}

/// Two slot sequences of the same widths with the same values in order are
/// equal.
pub proof fn lemma_flat_injective(s: Seq<Seq<int>>, t: Seq<Seq<int>>)
    requires
        widths_of(s) == widths_of(t),
        flat(s) == flat(t),
    ensures
        s == t,
    decreases s.len(),
{
    assert(s.len() == widths_of(s).len() && t.len() == widths_of(t).len());
    if s.len() > 0 {
        let n = s.len() - 1;
        assert(widths_of(s)[n] == widths_of(t)[n]);
        assert(widths_of(s.drop_last()) =~= widths_of(s).drop_last());
        assert(widths_of(t.drop_last()) =~= widths_of(t).drop_last());
        lemma_flat_len(s.drop_last());
        lemma_flat_len(t.drop_last());
        let k = flat(s.drop_last()).len();
        assert(flat(s.drop_last()) =~= flat(s).take(k as int));
        assert(flat(t.drop_last()) =~= flat(t).take(k as int));
        assert(s.last() =~= flat(s).skip(k as int));
        assert(t.last() =~= flat(t).skip(k as int));
        lemma_flat_injective(s.drop_last(), t.drop_last());
        assert forall|i: int| 0 <= i < s.len() implies s[i] == t[i] by {
            if i < n {
                assert(s[i] == s.drop_last()[i]);
                assert(t[i] == t.drop_last()[i]);
            }
        }
        assert(s =~= t);
    } else {
        assert(s =~= t);
    }
}

pub proof fn lemma_encode_values(vs: Seq<int>)
    requires
        forall|j: int| 0 <= j < vs.len() ==> 0 <= #[trigger] vs[j] < p(),
    ensures
        encode_values(vs).len() == FE_BYTES * vs.len(),
        forall|j: int| 0 <= j < vs.len() ==> #[trigger] chunk(encode_values(vs), j) == le_bytes(vs[j], FE_BYTES as nat),
    decreases vs.len(),
{
    if vs.len() > 0 {
        let prev = vs.drop_last();
        lemma_encode_values(prev);
        lemma_p_fits();
        lemma_le_round_trip(vs.last(), FE_BYTES as nat);
        let e = encode_values(vs);
        assert forall|j: int| 0 <= j < vs.len() implies #[trigger] chunk(e, j) == le_bytes(vs[j], FE_BYTES as nat) by {
            if j < prev.len() {
                assert(chunk(e, j) =~= chunk(encode_values(prev), j));
            } else {
                assert(chunk(e, j) =~= le_bytes(vs.last(), FE_BYTES as nat));
            }
        }
    }
}

/// Serializing the values and reading the bytes back gives the values.
pub proof fn lemma_values_round_trip(vs: Seq<int>)
    requires
        forall|j: int| 0 <= j < vs.len() ==> 0 <= #[trigger] vs[j] < p(),
    ensures
        chunks_canonical(encode_values(vs)),
        decode_values(encode_values(vs)) == vs,
{
    lemma_encode_values(vs);
    let e = encode_values(vs);
    assert(e.len() / FE_BYTES as nat == vs.len()) by {
        vstd::arithmetic::div_mod::lemma_div_multiples_vanish(vs.len() as int, FE_BYTES as int);
    }
    assert forall|j: int| 0 <= j < vs.len() implies le_value(#[trigger] chunk(e, j)) == vs[j] by {
        lemma_p_fits();
        lemma_le_round_trip(vs[j], FE_BYTES as nat);
    }
    assert(decode_values(e) =~= vs);
}

/// Every value of every slot is a canonical field element.
pub open spec fn all_canonical(s: Seq<Seq<int>>) -> bool {
    forall|i: int, k: int| 0 <= i < s.len() && 0 <= k < s[i].len() ==> 0 <= #[trigger] s[i][k] < p()
}

proof fn lemma_flat_canonical(s: Seq<Seq<int>>)
    requires
        all_canonical(s),
    ensures
        forall|j: int| 0 <= j < flat(s).len() ==> 0 <= #[trigger] flat(s)[j] < p(),
    decreases s.len(),
{
    if s.len() > 0 {
        let d = s.drop_last();
        assert forall|i: int, k: int| 0 <= i < d.len() && 0 <= k < d[i].len() implies 0 <= #[trigger] d[i][k] < p() by {
            assert(d[i] == s[i]);
        }
        lemma_flat_canonical(d);
        assert forall|j: int| 0 <= j < flat(s).len() implies 0 <= #[trigger] flat(s)[j] < p() by {
            if j >= flat(d).len() {
                assert(flat(s)[j] == s[s.len() - 1][j - flat(d).len()]);
            }
        }
    }
}

/// Serializing an accumulator and reading the bytes back with its own widths
/// gives back exactly its values: the bytes are accepted, and the only
/// accumulator of those widths that they describe is the original.
pub proof fn lemma_accumulator_round_trip(acc: Seq<Seq<int>>, back: Seq<Seq<int>>)
    requires
        all_canonical(acc),
    ensures
        encode_values(flat(acc)).len() == FE_BYTES * total(widths_of(acc)),
        chunks_canonical(encode_values(flat(acc))),
        widths_of(back) == widths_of(acc) && flat(back) == decode_values(encode_values(flat(acc))) ==> back == acc,
{
    lemma_flat_canonical(acc);
    lemma_encode_values(flat(acc));
    lemma_values_round_trip(flat(acc));
    lemma_flat_len(acc);
    if widths_of(back) == widths_of(acc) && flat(back) == decode_values(encode_values(flat(acc))) {
        lemma_flat_injective(back, acc);
    }
}

/// Slot `i` multiplied by `w[i]`, for every slot.
pub open spec fn scaled_slots(s: Seq<Seq<int>>, w: Seq<int>) -> Seq<Seq<int>> {
    Seq::new(s.len(), |i: int| s[i].map_values(|v: int| fmul(v, w[i])))
}

/// Scaling by `w` and then by `v` is one scaling by their slot-wise product.
pub proof fn lemma_scale_twice(s: Seq<Seq<int>>, w: Seq<int>, v: Seq<int>)
    requires
        w.len() == s.len(),
        v.len() == s.len(),
    ensures
        scaled_slots(scaled_slots(s, w), v) == scaled_slots(s, Seq::new(s.len(), |i: int| fmul(w[i], v[i]))),
{
    let wv = Seq::new(s.len(), |i: int| fmul(w[i], v[i]));
    let lhs = scaled_slots(scaled_slots(s, w), v);
    let rhs = scaled_slots(s, wv);
    assert forall|i: int| 0 <= i < s.len() implies #[trigger] lhs[i] == rhs[i] by {
        assert forall|k: int| 0 <= k < s[i].len() implies #[trigger] lhs[i][k] == rhs[i][k] by {
            let x = s[i][k];
            vstd::arithmetic::div_mod::lemma_mul_mod_noop_left(x * w[i], v[i], p());
            vstd::arithmetic::div_mod::lemma_mul_mod_noop_right(x, w[i] * v[i], p());
            vstd::arithmetic::mul::lemma_mul_is_associative(x, w[i], v[i]);
        }
        assert(lhs[i] =~= rhs[i]);
    }
    assert(lhs =~= rhs);
}

/// `result` plus the extensions of the first `n` slots, pointwise.
pub open spec fn summed_slots(result: Seq<int>, slots: Seq<Seq<int>>, n: nat) -> Seq<int>
    decreases n,
{
    if n == 0 {
        result
    } else {
        let prev = summed_slots(result, slots, (n - 1) as nat);
        Seq::new(result.len(), |k: int| fadd(prev[k], extension(slots[n - 1], result.len())[k]))
    }
}

/// With a batching polynomial of ones and a partial evaluation of one,
/// batching the slots into `result` is adding up their extensions.
pub proof fn lemma_batch_with_units(result: Seq<int>, slots: Seq<Seq<int>>, n: nat, poly: Seq<int>)
    requires
        n <= slots.len(),
        poly.len() == result.len(),
        forall|k: int| 0 <= k < poly.len() ==> #[trigger] poly[k] == 1,
        all_canonical(slots),
        forall|i: int| 0 <= i < slots.len() ==> 0 < (#[trigger] slots[i]).len() <= result.len(),
    ensures
        batch_slots(result, slots, n, poly, 1) == summed_slots(result, slots, n),
    decreases n,
{
    if n > 0 {
        lemma_batch_with_units(result, slots, (n - 1) as nat, poly);
        lemma_batch_slots_len(result, slots, (n - 1) as nat, poly, 1);
        let u = slots[n - 1];
        assert forall|k: int| 0 <= k < u.len() implies 0 <= #[trigger] u[k] < p() by {
            assert(u[k] == slots[n - 1][k]);
        }
        lemma_extension_canonical(u, result.len());
        crate::univariate::lemma_extension_len(u, result.len());
        let ext = extension(u, result.len());
        let lhs = batch_slots(result, slots, n, poly, 1);
        let rhs = summed_slots(result, slots, n);
        assert forall|k: int| 0 <= k < result.len() implies #[trigger] lhs[k] == rhs[k] by {
            assert(0 <= ext[k] < p());
            assert(fmul(ext[k], poly[k]) == ext[k]) by {
                vstd::arithmetic::div_mod::lemma_small_mod(ext[k] as nat, p() as nat);
            }
            assert(fmul(fmul(ext[k], poly[k]), 1) == ext[k]);
        }
        assert(lhs =~= rhs);
    }
}

/// A fixed-size, ordered sequence of partial univariates, one per
/// sub-identity of a relation.
#[derive(Debug)]
pub struct RelationAccumulator {
    pub slots: Vec<Univariate>,
}

impl View for RelationAccumulator {
    type V = Seq<Seq<int>>;

    open spec fn view(&self) -> Seq<Seq<int>> {
        slot_views(self.slots@)
    }
}

impl RelationAccumulator {
    /// Every slot holds canonical field elements and has at least one
    /// evaluation.
    pub open spec fn wf(&self) -> bool {
        forall|i: int| 0 <= i < self.slots@.len() ==> (#[trigger] self.slots@[i]).wf() && self.slots@[i].len() > 0
    }

    /// The widths of the slots.
    pub open spec fn shape(&self) -> Seq<nat> {
        self.slots@.map_values(|u: Univariate| u.len())
    }

    /// An accumulator of zeros whose slot `i` has `widths[i]` evaluations.
    pub fn zero(widths: &Vec<usize>) -> (r: RelationAccumulator)
        requires
            forall|i: int| 0 <= i < widths.len() ==> #[trigger] widths@[i] > 0,
        ensures
            r.wf(),
            r@.len() == widths.len(),
            forall|i: int|
                0 <= i < widths.len() ==> #[trigger] r@[i] == zeros(widths@[i] as nat),
    {
        let mut slots: Vec<Univariate> = Vec::new();
        let mut i: usize = 0;
        while i < widths.len()
            invariant
                i <= widths.len(),
                forall|j: int| 0 <= j < widths.len() ==> #[trigger] widths@[j] > 0,
                slots.len() == i,
                forall|j: int| 0 <= j < i ==> (#[trigger] slots@[j]).wf() && slots@[j].len() > 0,
                forall|j: int| 0 <= j < i ==> #[trigger] slots@[j]@ == zeros(widths@[j] as nat),
            decreases widths.len() - i,
        {
            slots.push(Univariate::zero(widths[i]));
            i = i + 1;
        }
        let r = RelationAccumulator { slots };
        assert forall|i: int| 0 <= i < widths.len() implies #[trigger] r@[i] == zeros(widths@[i] as nat) by {
            assert(r@[i] == r.slots@[i]@);
        }
        r
    }

    /// Multiplies slot `i` by `elements[i]`, for every slot.
    pub fn scale(&mut self, elements: &Vec<Fe>)
        requires
            old(self).wf(),
            all_wf(elements@),
            elements.len() == old(self).slots.len(),
        ensures
            final(self).wf(),
            final(self)@ == scaled_slots(old(self)@, vals(elements@)),
    {
        let n = self.slots.len();
        let mut slots: Vec<Univariate> = Vec::new();
        let mut i: usize = 0;
        while i < n
            invariant
                i <= n,
                n == self.slots.len(),
                self.wf(),
                elements.len() == n,
                all_wf(elements@),
                slots.len() == i,
                forall|j: int| 0 <= j < i ==> (#[trigger] slots@[j]).wf() && slots@[j].len() > 0,
                forall|j: int|
                    0 <= j < i ==> #[trigger] slots@[j]@ == self.slots@[j]@.map_values(
                        |v: int| fmul(v, elements@[j].val()),
                    ),
            decreases n - i,
        {
            slots.push(self.slots[i].scaled(&elements[i]));
            i = i + 1;
        }
        let ghost old_slots = self.slots@;
        self.slots = slots;
        assert forall|i: int| 0 <= i < old_slots.len() implies #[trigger] self@[i] == scaled_slots(
            slot_views(old_slots),
            vals(elements@),
        )[i] by {
            assert(self@[i] == self.slots@[i]@);
            assert(slot_views(old_slots)[i] == old_slots[i]@);
        }
        assert(self@ =~= scaled_slots(slot_views(old_slots), vals(elements@)));
    }

    /// Extends every slot to the length of `result`, multiplies it pointwise
    /// by `extended_random_poly` and by `partial_evaluation_result`, and adds
    /// it into `result`, slot after slot.
    pub fn extend_and_batch_univariates(
        &self,
        result: &mut Univariate,
        extended_random_poly: &Univariate,
        partial_evaluation_result: &Fe,
    )
        requires
            self.wf(),
            old(result).wf(),
            extended_random_poly.wf(),
            partial_evaluation_result.wf(),
            extended_random_poly.len() == old(result).len(),
            old(result).len() < usize::MAX,
            forall|i: int| 0 <= i < self.slots@.len() ==> (#[trigger] self.slots@[i]).len() <= old(result).len(),
        ensures
            final(result).wf(),
            final(result).len() == old(result).len(),
            final(result)@ == batch_slots(
                old(result)@,
                self@,
                self@.len(),
                extended_random_poly@,
                partial_evaluation_result.val(),
            ),
    {
        let n = self.slots.len();
        let mut i: usize = 0;
        while i < n
            invariant
                i <= n,
                n == self.slots.len(),
                self.wf(),
                result.wf(),
                result.len() == old(result).len(),
                old(result).len() < usize::MAX,
                extended_random_poly.wf(),
                partial_evaluation_result.wf(),
                extended_random_poly.len() == old(result).len(),
                forall|j: int| 0 <= j < n ==> (#[trigger] self.slots@[j]).len() <= old(result).len(),
                result@ == batch_slots(
                    old(result)@,
                    self@,
                    i as nat,
                    extended_random_poly@,
                    partial_evaluation_result.val(),
                ),
            decreases n - i,
        {
            proof {
                assert(self@[i as int] == self.slots@[i as int]@);
                assert(old(result)@.len() == old(result).len());
            }
            self.slots[i].extend_and_batch_univariates(result, extended_random_poly, partial_evaluation_result);
            i = i + 1;
        }
    }

    /// The accumulator's values, slot after slot, each as `FE_BYTES`
    /// little-endian bytes.
    pub fn to_bytes(&self) -> (r: Vec<u8>)
        requires
            self.wf(),
        ensures
            r@ == encode_values(flat(self@)),
    {
        let mut out: Vec<u8> = Vec::new();
        let n = self.slots.len();
        let mut i: usize = 0;
        assert(flat(self@.take(0)) =~= Seq::<int>::empty());
        while i < n
            invariant
                i <= n,
                n == self.slots.len(),
                self.wf(),
                out@ == encode_values(flat(self@.take(i as int))),
            decreases n - i,
        {
            let m = self.slots[i].evaluations.len();
            let ghost before = flat(self@.take(i as int));
            let mut k: usize = 0;
            assert(before + self@[i as int].take(0) =~= before);
            while k < m
                invariant
                    i < n,
                    k <= m,
                    n == self.slots.len(),
                    m == self.slots@[i as int].evaluations.len(),
                    self.wf(),
                    before == flat(self@.take(i as int)),
                    out@ == encode_values(before + self@[i as int].take(k as int)),
                decreases m - k,
            {
                assert(self.slots@[i as int].wf());
                let mut b = self.slots[i].evaluations[k].to_bytes();
                out.append(&mut b);
                proof {
                    assert(self@[i as int] == self.slots@[i as int]@);
                    let prefix = before + self@[i as int].take(k as int);
                    assert((before + self@[i as int].take(k + 1)).drop_last() =~= prefix);
                    assert((before + self@[i as int].take(k + 1)).last() == self.slots@[i as int].evaluations@[k as int].val());
                }
                k = k + 1;
            }
            proof {
                assert(self@[i as int] == self.slots@[i as int]@);
                assert(self@[i as int].take(m as int) =~= self@[i as int]);
                assert(self@.take(i + 1).drop_last() =~= self@.take(i as int));
            }
            i = i + 1;
        }
        assert(self@.take(n as int) =~= self@);
        out
    }

    /// Reads an accumulator whose slot `i` has `widths[i]` evaluations from
    /// the bytes `to_bytes` writes. `None` when the length does not match the
    /// widths or a chunk is not a canonical field element.
    pub fn from_bytes(bytes: &[u8], widths: &Vec<usize>) -> (r: Option<RelationAccumulator>)
        requires
            forall|i: int| 0 <= i < widths.len() ==> #[trigger] widths@[i] > 0,
        ensures
            r is Some <==> bytes@.len() == FE_BYTES * total(nat_widths(widths@)) && chunks_canonical(bytes@),
            r matches Some(a) ==> {
                &&& a.wf()
                &&& widths_of(a@) == nat_widths(widths@)
                &&& flat(a@) == decode_values(bytes@)
            },
    {
        let ghost ws = nat_widths(widths@);
        let blen = bytes.len();
        let n_chunks = blen / FE_BYTES;
        let mut count: usize = 0;
        let mut i: usize = 0;
        assert(ws.take(0) =~= Seq::<nat>::empty());
        while i < widths.len()
            invariant
                i <= widths.len(),
                ws == nat_widths(widths@),
                n_chunks == bytes@.len() / FE_BYTES as nat,
                count == total(ws.take(i as int)),
                count <= n_chunks,
            decreases widths.len() - i,
        {
            assert(ws.take(i + 1).drop_last() =~= ws.take(i as int));
            if widths[i] > n_chunks - count {
                proof {
                    lemma_total_prefix(ws, i + 1);
                }
                return None;
            }
            count = count + widths[i];
            i = i + 1;
        }
        assert(ws.take(widths.len() as int) =~= ws);
        if count != n_chunks || bytes.len() % FE_BYTES != 0 {
            return None;
        }
        let mut slots: Vec<Univariate> = Vec::new();
        let mut j: usize = 0;
        i = 0;
        while i < widths.len()
            invariant
                i <= widths.len(),
                ws == nat_widths(widths@),
                forall|t: int| 0 <= t < widths.len() ==> #[trigger] widths@[t] > 0,
                total(ws) == n_chunks,
                blen == bytes@.len(),
                n_chunks == bytes@.len() / FE_BYTES as nat,
                bytes@.len() == FE_BYTES * n_chunks,
                j == total(ws.take(i as int)),
                slots.len() == i,
                forall|t: int| 0 <= t < i ==> (#[trigger] slots@[t]).wf() && slots@[t].len() > 0,
                widths_of(slot_views(slots@)) == ws.take(i as int),
                flat(slot_views(slots@)) == decode_values(bytes@).take(j as int),
                forall|t: int| 0 <= t < j ==> #[trigger] le_value(chunk(bytes@, t)) < p(),
            decreases widths.len() - i,
        {
            proof {
                lemma_total_prefix(ws, i + 1);
                assert(ws.take(i + 1).drop_last() =~= ws.take(i as int));
            }
            let w = widths[i];
            let mut e: Vec<Fe> = Vec::new();
            let mut k: usize = 0;
            while k < w
                invariant
                    i < widths.len(),
                    w == widths@[i as int],
                    k <= w,
                    j + w - k <= n_chunks,
                    blen == bytes@.len(),
                    bytes@.len() == FE_BYTES * n_chunks,
                    n_chunks == bytes@.len() / FE_BYTES as nat,
                    e.len() == k,
                    all_wf(e@),
                    flat(slot_views(slots@)) + vals(e@) == decode_values(bytes@).take(j as int),
                    forall|t: int| 0 <= t < j ==> #[trigger] le_value(chunk(bytes@, t)) < p(),
                decreases w - k,
            {
                assert(FE_BYTES * j + FE_BYTES <= bytes@.len()) by (nonlinear_arith)
                    requires
                        j + 1 <= n_chunks,
                        bytes@.len() == FE_BYTES * n_chunks;
                let chunk_bytes = vstd::slice::slice_subrange(bytes, FE_BYTES * j, FE_BYTES * j + FE_BYTES);
                match Fe::from_bytes(chunk_bytes) {
                    Some(x) => {
                        proof {
                            assert(chunk_bytes@ == chunk(bytes@, j as int));
                            assert(decode_values(bytes@).take(j + 1) =~= decode_values(bytes@).take(j as int).push(x.val()));
                            assert(vals(e@.push(x)) =~= vals(e@).push(x.val()));
                        }
                        e.push(x);
                        j = j + 1;
                    },
                    None => {
                        proof {
                            assert(chunk_bytes@ == chunk(bytes@, j as int));
                        }
                        return None;
                    },
                }
                k = k + 1;
            }
            let u = Univariate { evaluations: e };
            proof {
                assert(slot_views(slots@.push(u)).drop_last() =~= slot_views(slots@));
                assert(widths_of(slot_views(slots@.push(u))) =~= ws.take(i + 1));
            }
            slots.push(u);
            i = i + 1;
        }
        let r = RelationAccumulator { slots };
        proof {
            assert(ws.take(widths.len() as int) =~= ws);
            assert(decode_values(bytes@).take(j as int) =~= decode_values(bytes@));
        }
        Some(r)
    }
}

} // verus!
