//! Low-degree univariate polynomials held by their evaluations at the points
//! 0, 1, ..., n - 1 of the field.
use crate::field::{fadd, fmul, fneg, p, Fe};
use vstd::prelude::*;

verus! {

/// The values of a sequence of field elements.
pub open spec fn vals(s: Seq<Fe>) -> Seq<int> {
    s.map_values(|e: Fe| e.val())
}

/// `n` zeros.
pub open spec fn zeros(n: nat) -> Seq<int> {
    Seq::new(n, |i: int| 0int)
}

/// Every element of the sequence is canonical.
pub open spec fn all_wf(s: Seq<Fe>) -> bool {
    forall|i: int| 0 <= i < s.len() ==> #[trigger] s[i].wf()
}

/// The binomial coefficient `C(n, i)`, taken in the field.
pub open spec fn binom(n: nat, i: nat) -> int
    decreases n,
{
    if i == 0 {
        1
    } else if n == 0 {
        0
    } else {
        fadd(binom((n - 1) as nat, (i - 1) as nat), binom((n - 1) as nat, i))
    }
}

/// The weight of the `i`-th of `n` consecutive evaluations of a polynomial of
/// degree below `n` in the evaluation that follows them:
/// `(-1)^(n - 1 - i) * C(n, i)`. It is read off the vanishing of the `n`-th
/// finite difference.
pub open spec fn next_weight(n: nat, i: nat) -> int {
    if (n - 1 - i) % 2 == 0 {
        binom(n, i)
    } else {
        fneg(binom(n, i))
    }
}

/// The sum of the first `i` weighted terms of the window `w`.
pub open spec fn weighted_prefix(w: Seq<int>, i: nat) -> int
    decreases i,
{
    if i == 0 {
        0
    } else {
        fadd(
            weighted_prefix(w, (i - 1) as nat),
            fmul(next_weight(w.len(), (i - 1) as nat), w[i - 1]),
        )
    }
}

/// The evaluation that follows the window `w` of consecutive evaluations, for
/// the polynomial of degree below `w.len()` through them.
pub open spec fn next_eval(w: Seq<int>) -> int {
    weighted_prefix(w, w.len())
}

/// The evaluations at `0..size` of the polynomial of degree below `u.len()`
/// whose evaluations at `0..u.len()` are `u`.
pub open spec fn extension(u: Seq<int>, size: nat) -> Seq<int>
    decreases size,
{
    if size <= u.len() || u.len() == 0 {
        u.take(size as int)
    } else {
        let e = extension(u, (size - 1) as nat);
        e.push(next_eval(e.subrange(e.len() - u.len(), e.len() as int)))
    }
}

pub proof fn lemma_binom_above(n: nat, i: nat)
    requires
        i > n,
    ensures
        binom(n, i) == 0,
    decreases n,
{
    if n > 0 {
        lemma_binom_above((n - 1) as nat, (i - 1) as nat);
        lemma_binom_above((n - 1) as nat, i);
    }
}

pub proof fn lemma_binom_canonical(n: nat, i: nat)
    ensures
        0 <= binom(n, i) < p(),
    decreases n,
{
    if i != 0 && n != 0 {
        lemma_binom_canonical((n - 1) as nat, (i - 1) as nat);
        lemma_binom_canonical((n - 1) as nat, i);
    }
}

pub proof fn lemma_extension_len(u: Seq<int>, size: nat)
    requires
        u.len() > 0,
        size >= u.len(),
    ensures
        extension(u, size).len() == size,
        extension(u, size).take(u.len() as int) == u,
    decreases size,
{
    if size > u.len() {
        lemma_extension_len(u, (size - 1) as nat);
        let e = extension(u, (size - 1) as nat);
        assert(extension(u, size).take(u.len() as int) =~= e.take(u.len() as int));
    } else {
        assert(u.take(size as int) =~= u);
    }
}

/// The extension of canonical values is canonical.
pub proof fn lemma_extension_canonical(u: Seq<int>, size: nat)
    requires
        u.len() > 0,
        forall|k: int| 0 <= k < u.len() ==> 0 <= #[trigger] u[k] < p(),
    ensures
        forall|k: int| 0 <= k < extension(u, size).len() ==> 0 <= #[trigger] extension(u, size)[k] < p(),
    decreases size,
{
    if size > u.len() {
        lemma_extension_canonical(u, (size - 1) as nat);
        lemma_extension_len(u, (size - 1) as nat);
        let e = extension(u, (size - 1) as nat);
        let w = e.subrange(e.len() - u.len(), e.len() as int);
        assert(w.len() == u.len());
        assert(0 <= next_eval(w) < p());
        assert(extension(u, size) == e.push(next_eval(w)));
    }
}

/// A univariate polynomial of low degree, held by its evaluations at
/// `0..evaluations.len()`.
#[derive(Clone, Debug)]
pub struct Univariate {
    pub evaluations: Vec<Fe>,
}

impl View for Univariate {
    type V = Seq<int>;

    open spec fn view(&self) -> Seq<int> {
        vals(self.evaluations@)
    }
}

/// The rows `0..=n` of Pascal's triangle in the field, row `n` returned.
fn binomial_row(n: usize) -> (r: Vec<Fe>)
    requires
        n < usize::MAX,
    ensures
        r.len() == n + 1,
        all_wf(r@),
        forall|i: int| 0 <= i <= n ==> #[trigger] r@[i].val() == binom(n as nat, i as nat),
{
    let mut row: Vec<Fe> = Vec::new();
    row.push(Fe::one());
    let mut m: usize = 0;
    while m < n
        invariant
            m <= n,
            n < usize::MAX,
            row.len() == m + 1,
            all_wf(row@),
            forall|i: int| 0 <= i <= m ==> #[trigger] row@[i].val() == binom(m as nat, i as nat),
        decreases n - m,
    {
        let mut next: Vec<Fe> = Vec::new();
        next.push(Fe::one());
        let mut i: usize = 1;
        while i <= m + 1
            invariant
                1 <= i <= m + 2,
                m < n,
                n < usize::MAX,
                row.len() == m + 1,
                all_wf(row@),
                forall|j: int| 0 <= j <= m ==> #[trigger] row@[j].val() == binom(m as nat, j as nat),
                next.len() == i,
                all_wf(next@),
                forall|j: int| 0 <= j < i ==> #[trigger] next@[j].val() == binom((m + 1) as nat, j as nat),
            decreases m + 2 - i,
        {
            let v = if i <= m {
                row[i - 1].add(&row[i])
            } else {
                proof {
                    lemma_binom_above(m as nat, i as nat);
                    lemma_binom_canonical(m as nat, (i - 1) as nat);
                }
                let z = Fe::zero();
                row[i - 1].add(&z)
            };
            next.push(v);
            i = i + 1;
        }
        row = next;
        m = m + 1;
    }
    row
}

/// The weights `next_weight(n, i)` for `i` in `0..n`.
fn next_weights(n: usize) -> (r: Vec<Fe>)
    requires
        0 < n < usize::MAX,
    ensures
        r.len() == n,
        all_wf(r@),
        forall|i: int| 0 <= i < n ==> #[trigger] r@[i].val() == next_weight(n as nat, i as nat),
{
    let row = binomial_row(n);
    let mut r: Vec<Fe> = Vec::new();
    let mut i: usize = 0;
    while i < n
        invariant
            i <= n,
            row.len() == n + 1,
            all_wf(row@),
            forall|j: int| 0 <= j <= n ==> #[trigger] row@[j].val() == binom(n as nat, j as nat),
            r.len() == i,
            all_wf(r@),
            forall|j: int| 0 <= j < i ==> #[trigger] r@[j].val() == next_weight(n as nat, j as nat),
        decreases n - i,
    {
        let w = if (n - 1 - i) % 2 == 0 {
            row[i]
        } else {
            row[i].neg()
        };
        r.push(w);
        i = i + 1;
    }
    r
}

impl Univariate {
    pub open spec fn wf(&self) -> bool {
        all_wf(self.evaluations@)
    }

    pub open spec fn len(&self) -> nat {
        self.evaluations@.len()
    }

    /// The zero polynomial held at `n` points.
    pub fn zero(n: usize) -> (r: Univariate)
        ensures
            r.wf(),
            r.len() == n,
            r@ == zeros(n as nat),
    {
        let mut e: Vec<Fe> = Vec::new();
        let mut i: usize = 0;
        while i < n
            invariant
                i <= n,
                e.len() == i,
                all_wf(e@),
                forall|j: int| 0 <= j < i ==> #[trigger] e@[j].val() == 0,
            decreases n - i,
        {
            e.push(Fe::zero());
            i = i + 1;
        }
        let r = Univariate { evaluations: e };
        assert(r@ =~= zeros(n as nat));
        r
    }

    /// This univariate with every evaluation multiplied by `c`.
    pub fn scaled(&self, c: &Fe) -> (r: Univariate)
        requires
            self.wf(),
            c.wf(),
        ensures
            r.wf(),
            r.len() == self.len(),
            r@ == self@.map_values(|v: int| fmul(v, c.val())),
    {
        let n = self.evaluations.len();
        let mut e: Vec<Fe> = Vec::new();
        let mut i: usize = 0;
        while i < n
            invariant
                i <= n,
                n == self.evaluations.len(),
                self.wf(),
                c.wf(),
                e.len() == i,
                all_wf(e@),
                forall|j: int|
                    0 <= j < i ==> #[trigger] e@[j].val() == fmul(self.evaluations@[j].val(), c.val()),
            decreases n - i,
        {
            e.push(self.evaluations[i].mul(c));
            i = i + 1;
        }
        let r = Univariate { evaluations: e };
        assert(r@ =~= self@.map_values(|v: int| fmul(v, c.val())));
        r
    }

    /// The evaluations at `0..size` of the polynomial of degree below
    /// `self.len()` that this univariate holds.
    pub fn extend_to(&self, size: usize) -> (r: Univariate)
        requires
            self.wf(),
            0 < self.len() <= size < usize::MAX,
        ensures
            r.wf(),
            r@ == extension(self@, size as nat),
    {
        let n = self.evaluations.len();
        let weights = next_weights(n);
        let mut ext: Vec<Fe> = Vec::new();
        let mut i: usize = 0;
        while i < n
            invariant
                i <= n,
                n == self.evaluations.len(),
                self.wf(),
                ext.len() == i,
                all_wf(ext@),
                forall|j: int| 0 <= j < i ==> #[trigger] ext@[j] == self.evaluations@[j],
            decreases n - i,
        {
            ext.push(self.evaluations[i]);
            i = i + 1;
        }
        proof {
            assert(vals(ext@) =~= self@);
            assert(self@.take(n as int) =~= self@);
        }
        while ext.len() < size
            invariant
                n == self.evaluations.len(),
                0 < n <= ext.len() <= size,
                weights.len() == n,
                all_wf(weights@),
                forall|j: int| 0 <= j < n ==> #[trigger] weights@[j].val() == next_weight(n as nat, j as nat),
                all_wf(ext@),
                vals(ext@) == extension(self@, ext.len() as nat),
            decreases size - ext.len(),
        {
            let start = ext.len() - n;
            let ghost w = vals(ext@).subrange(start as int, ext.len() as int);
            let mut acc = Fe::zero();
            let mut k: usize = 0;
            while k < n
                invariant
                    k <= n,
                    start + n == ext.len(),
                    weights.len() == n,
                    all_wf(weights@),
                    forall|j: int| 0 <= j < n ==> #[trigger] weights@[j].val() == next_weight(n as nat, j as nat),
                    all_wf(ext@),
                    w == vals(ext@).subrange(start as int, ext.len() as int),
                    acc.wf(),
                    acc.val() == weighted_prefix(w, k as nat),
                decreases n - k,
            {
                let t = weights[k].mul(&ext[start + k]);
                acc = acc.add(&t);
                k = k + 1;
            }
            proof {
                lemma_extension_len(self@, ext.len() as nat);
                lemma_extension_len(self@, (ext.len() + 1) as nat);
            }
            ext.push(acc);
            proof {
                assert(vals(ext@) =~= extension(self@, ext.len() as nat));
            }
        }
        Univariate { evaluations: ext }
    }

    /// Extends this univariate to the length of `result`, multiplies it
    /// pointwise by `extended_random_poly` and by `partial_evaluation_result`,
    /// and adds it into `result`.
    pub fn extend_and_batch_univariates(
        &self,
        result: &mut Univariate,
        extended_random_poly: &Univariate,
        partial_evaluation_result: &Fe,
    )
        requires
            self.wf(),
            old(result).wf(),
            extended_random_poly.wf(),
            partial_evaluation_result.wf(),
            0 < self.len() <= old(result).len() < usize::MAX,
            extended_random_poly.len() == old(result).len(),
        ensures
            final(result).wf(),
            final(result).len() == old(result).len(),
            final(result)@ == batched(
                old(result)@,
                extension(self@, old(result).len()),
                extended_random_poly@,
                partial_evaluation_result.val(),
            ),
    {
        let size = result.evaluations.len();
        let ext = self.extend_to(size);
        proof {
            lemma_extension_len(self@, size as nat);
        }
        let mut i: usize = 0;
        while i < size
            invariant
                i <= size,
                size == old(result).evaluations.len(),
                result.evaluations.len() == size,
                ext.wf(),
                ext@.len() == size,
                extended_random_poly.wf(),
                extended_random_poly.len() == size,
                partial_evaluation_result.wf(),
                all_wf(result.evaluations@),
                forall|j: int|
                    0 <= j < i ==> #[trigger] result.evaluations@[j].val() == fadd(
                        old(result)@[j],
                        fmul(fmul(ext@[j], extended_random_poly@[j]), partial_evaluation_result.val()),
                    ),
                forall|j: int|
                    i <= j < size ==> #[trigger] result.evaluations@[j] == old(result).evaluations@[j],
            decreases size - i,
        {
            let t = ext.evaluations[i].mul(&extended_random_poly.evaluations[i]);
            let t = t.mul(partial_evaluation_result);
            let v = result.evaluations[i].add(&t);
            result.evaluations.set(i, v);
            i = i + 1;
        }
        proof {
            assert(result@ =~= batched(
                old(result)@,
                extension(self@, old(result).len()),
                extended_random_poly@,
                partial_evaluation_result.val(),
            ));
        }
    }
}

/// `result + ext * poly * c`, pointwise, in the field.
pub open spec fn batched(result: Seq<int>, ext: Seq<int>, poly: Seq<int>, c: int) -> Seq<int> {
    Seq::new(result.len(), |k: int| fadd(result[k], fmul(fmul(ext[k], poly[k]), c)))
}

} // verus!
