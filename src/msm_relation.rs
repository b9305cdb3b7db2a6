//! The MSM relation: the per-row polynomial identities that certify that the
//! MSM columns of the ECCVM trace follow the windowed-NAF multi-scalar
//! multiplication, one ADD, DOUBLE or SKEW step per row.
use crate::accumulator::RelationAccumulator;
use crate::field::{
    cong, fadd, fmul, fneg, fsub, is_inverse, lemma_add_nonzero_changes, lemma_canonical_mod, lemma_cong_canonical,
    lemma_cong_compat, lemma_cong_ops, lemma_minus_one, lemma_p_gt_one, p, Fe,
};
use crate::params::RelationParameters;
use crate::univariate::{all_wf, vals, zeros, Univariate};
use vstd::prelude::*;

verus! {

/// Number of sub-identities, and so of accumulator slots, of the MSM relation.
pub const MSM_NUM_SUBRELATIONS: usize = 36;

/// Number of evaluations held per sub-identity: one more than the largest
/// degree among the identities.
pub const MSM_PARTIAL_LENGTH: usize = 8;

/// The values of the MSM columns of one row (and of the shifted columns,
/// that is the next row) at one evaluation point.
#[derive(Clone, Copy, Debug)]
pub struct MsmRow {
    pub x1: Fe,
    pub y1: Fe,
    pub x2: Fe,
    pub y2: Fe,
    pub x3: Fe,
    pub y3: Fe,
    pub x4: Fe,
    pub y4: Fe,
    pub collision_inverse1: Fe,
    pub collision_inverse2: Fe,
    pub collision_inverse3: Fe,
    pub collision_inverse4: Fe,
    pub lambda1: Fe,
    pub lambda2: Fe,
    pub lambda3: Fe,
    pub lambda4: Fe,
    pub lagrange_first: Fe,
    pub add1: Fe,
    pub add1_shift: Fe,
    pub add2: Fe,
    pub add3: Fe,
    pub add4: Fe,
    pub acc_x: Fe,
    pub acc_y: Fe,
    pub acc_x_shift: Fe,
    pub acc_y_shift: Fe,
    pub slice1: Fe,
    pub slice2: Fe,
    pub slice3: Fe,
    pub slice4: Fe,
    pub msm_transition: Fe,
    pub msm_transition_shift: Fe,
    pub round: Fe,
    pub round_shift: Fe,
    pub q_add: Fe,
    pub q_add_shift: Fe,
    pub q_skew: Fe,
    pub q_skew_shift: Fe,
    pub q_double: Fe,
    pub q_double_shift: Fe,
    pub msm_size: Fe,
    pub pc: Fe,
    pub pc_shift: Fe,
    pub count: Fe,
    pub count_shift: Fe,
}

impl MsmRow {
    pub open spec fn wf(&self) -> bool {
        self.x1.wf()
            && self.y1.wf()
            && self.x2.wf()
            && self.y2.wf()
            && self.x3.wf()
            && self.y3.wf()
            && self.x4.wf()
            && self.y4.wf()
            && self.collision_inverse1.wf()
            && self.collision_inverse2.wf()
            && self.collision_inverse3.wf()
            && self.collision_inverse4.wf()
            && self.lambda1.wf()
            && self.lambda2.wf()
            && self.lambda3.wf()
            && self.lambda4.wf()
            && self.lagrange_first.wf()
            && self.add1.wf()
            && self.add1_shift.wf()
            && self.add2.wf()
            && self.add3.wf()
            && self.add4.wf()
            && self.acc_x.wf()
            && self.acc_y.wf()
            && self.acc_x_shift.wf()
            && self.acc_y_shift.wf()
            && self.slice1.wf()
            && self.slice2.wf()
            && self.slice3.wf()
            && self.slice4.wf()
            && self.msm_transition.wf()
            && self.msm_transition_shift.wf()
            && self.round.wf()
            && self.round_shift.wf()
            && self.q_add.wf()
            && self.q_add_shift.wf()
            && self.q_skew.wf()
            && self.q_skew_shift.wf()
            && self.q_double.wf()
            && self.q_double_shift.wf()
            && self.msm_size.wf()
            && self.pc.wf()
            && self.pc_shift.wf()
            && self.count.wf()
            && self.count_shift.wf()
    }

    /// Every column is zero.
    pub open spec fn is_zero(&self) -> bool {
        self.x1.val() == 0
            && self.y1.val() == 0
            && self.x2.val() == 0
            && self.y2.val() == 0
            && self.x3.val() == 0
            && self.y3.val() == 0
            && self.x4.val() == 0
            && self.y4.val() == 0
            && self.collision_inverse1.val() == 0
            && self.collision_inverse2.val() == 0
            && self.collision_inverse3.val() == 0
            && self.collision_inverse4.val() == 0
            && self.lambda1.val() == 0
            && self.lambda2.val() == 0
            && self.lambda3.val() == 0
            && self.lambda4.val() == 0
            && self.lagrange_first.val() == 0
            && self.add1.val() == 0
            && self.add1_shift.val() == 0
            && self.add2.val() == 0
            && self.add3.val() == 0
            && self.add4.val() == 0
            && self.acc_x.val() == 0
            && self.acc_y.val() == 0
            && self.acc_x_shift.val() == 0
            && self.acc_y_shift.val() == 0
            && self.slice1.val() == 0
            && self.slice2.val() == 0
            && self.slice3.val() == 0
            && self.slice4.val() == 0
            && self.msm_transition.val() == 0
            && self.msm_transition_shift.val() == 0
            && self.round.val() == 0
            && self.round_shift.val() == 0
            && self.q_add.val() == 0
            && self.q_add_shift.val() == 0
            && self.q_skew.val() == 0
            && self.q_skew_shift.val() == 0
            && self.q_double.val() == 0
            && self.q_double_shift.val() == 0
            && self.msm_size.val() == 0
            && self.pc.val() == 0
            && self.pc_shift.val() == 0
            && self.count.val() == 0
            && self.count_shift.val() == 0
    }

    /// The row whose every column is zero.
    pub fn zero() -> (r: MsmRow)
        ensures
            r.wf(),
            r.is_zero(),
    {
        let z = Fe::zero();
        MsmRow {
            x1: z,
            y1: z,
            x2: z,
            y2: z,
            x3: z,
            y3: z,
            x4: z,
            y4: z,
            collision_inverse1: z,
            collision_inverse2: z,
            collision_inverse3: z,
            collision_inverse4: z,
            lambda1: z,
            lambda2: z,
            lambda3: z,
            lambda4: z,
            lagrange_first: z,
            add1: z,
            add1_shift: z,
            add2: z,
            add3: z,
            add4: z,
            acc_x: z,
            acc_y: z,
            acc_x_shift: z,
            acc_y_shift: z,
            slice1: z,
            slice2: z,
            slice3: z,
            slice4: z,
            msm_transition: z,
            msm_transition_shift: z,
            round: z,
            round_shift: z,
            q_add: z,
            q_add_shift: z,
            q_skew: z,
            q_skew_shift: z,
            q_double: z,
            q_double_shift: z,
            msm_size: z,
            pc: z,
            pc_shift: z,
            count: z,
            count_shift: z,
        }
    }
}

/// An accumulator of the MSM relation's shape: one slot of
/// `MSM_PARTIAL_LENGTH` evaluations per sub-identity.
pub open spec fn is_msm_accumulator(acc: &RelationAccumulator) -> bool {
    &&& acc.wf()
    &&& acc.slots@.len() == MSM_NUM_SUBRELATIONS
    &&& forall|i: int| 0 <= i < MSM_NUM_SUBRELATIONS ==> (#[trigger] acc.slots@[i]).len() == MSM_PARTIAL_LENGTH
}

/// One conditional point addition of `(xa, ya)` and `(xb, yb)` with slope
/// `lambda`, applied when `sel` is one and skipped (output `(xa, ya)`, slope
/// zero) when it is zero. Returns the updated addition residual, the collision
/// residual `sel * (xb - xa)` and the output point.
pub open spec fn cond_add(xb: int, yb: int, xa: int, ya: int, lambda: int, sel: int, relation: int) -> (int, int, int, int) {
    let rel = fadd(relation, fadd(fmul(sel, fsub(fmul(lambda, fsub(fsub(xb, xa), 1)), fsub(yb, ya))), lambda));
    let coll = fmul(sel, fsub(xb, xa));
    let x_out = fadd(fadd(fmul(lambda, lambda), fmul(fsub(fsub(fneg(xb), xa), xa), sel)), xa);
    let y_out = fadd(fadd(fmul(lambda, fsub(xa, x_out)), fmul(fsub(fneg(ya), ya), sel)), ya);
    (rel, coll, x_out, y_out)
}

/// The first addition of a row: the point `(x1, y1)` is added to the running
/// accumulator, or to the offset generator `(ox, oy)` when `t` (the MSM
/// transition flag) is one. Returns the addition residual, the collision
/// residual and the output point.
pub open spec fn first_add(ox: int, oy: int, acc_x: int, acc_y: int, x1: int, y1: int, lambda: int, t: int) -> (int, int, int, int) {
    let x = fadd(fmul(ox, t), fmul(acc_x, fsub(1, t)));
    let y = fadd(fmul(oy, t), fmul(acc_y, fsub(1, t)));
    let rel = fsub(fmul(lambda, fsub(x, x1)), fsub(y, y1));
    let coll = fsub(x1, x);
    let x_out = fsub(fsub(fmul(lambda, lambda), x), x1);
    let y_out = fsub(fmul(lambda, fsub(x1, x_out)), y1);
    (rel, coll, x_out, y_out)
}

/// One point doubling of `(x, y)` with slope `lambda`. Returns the updated
/// doubling residual and the output point.
pub open spec fn dbl(x: int, y: int, lambda: int, relation: int) -> (int, int, int) {
    let two_x = fadd(x, x);
    let rel = fadd(relation, fsub(fmul(lambda, fadd(y, y)), fmul(fadd(two_x, x), x)));
    let x_out = fsub(fmul(lambda, lambda), two_x);
    let y_out = fsub(fmul(lambda, fsub(x, x_out)), y);
    (rel, x_out, y_out)
}

/// The ADD round of a row: up to four chained additions, the first from the
/// accumulator or the offset generator. Returns the output point, the
/// addition residual and the four collision residuals.
pub open spec fn add_chain(r: MsmRow, ox: int, oy: int) -> (int, int, int, Seq<int>) {
    let a1 = first_add(ox, oy, r.acc_x.val(), r.acc_y.val(), r.x1.val(), r.y1.val(), r.lambda1.val(), r.msm_transition.val());
    let a2 = cond_add(r.x2.val(), r.y2.val(), a1.2, a1.3, r.lambda2.val(), r.add2.val(), a1.0);
    let a3 = cond_add(r.x3.val(), r.y3.val(), a2.2, a2.3, r.lambda3.val(), r.add3.val(), a2.0);
    let a4 = cond_add(r.x4.val(), r.y4.val(), a3.2, a3.3, r.lambda4.val(), r.add4.val(), a3.0);
    (a4.2, a4.3, a4.0, seq![a1.1, a2.1, a3.1, a4.1])
}

/// The selector of the `i`-th skew addition: the slice value times the
/// inverse of seven (slice seven selects, slice zero skips).
pub open spec fn skew_selects(r: MsmRow, inv7: int) -> Seq<int> {
    seq![fmul(r.slice1.val(), inv7), fmul(r.slice2.val(), inv7), fmul(r.slice3.val(), inv7), fmul(r.slice4.val(), inv7)]
}

/// The SKEW round of a row: four conditional additions into the accumulator,
/// selected by the slices. Returns the output point, the skew residual and the
/// four collision residuals.
pub open spec fn skew_chain(r: MsmRow, inv7: int) -> (int, int, int, Seq<int>) {
    let s = skew_selects(r, inv7);
    let a1 = cond_add(r.x1.val(), r.y1.val(), r.acc_x.val(), r.acc_y.val(), r.lambda1.val(), s[0], 0);
    let a2 = cond_add(r.x2.val(), r.y2.val(), a1.2, a1.3, r.lambda2.val(), s[1], a1.0);
    let a3 = cond_add(r.x3.val(), r.y3.val(), a2.2, a2.3, r.lambda3.val(), s[2], a2.0);
    let a4 = cond_add(r.x4.val(), r.y4.val(), a3.2, a3.3, r.lambda4.val(), s[3], a3.0);
    (a4.2, a4.3, a4.0, seq![a1.1, a2.1, a3.1, a4.1])
}

/// The DOUBLE round of a row: the accumulator doubled four times. Returns the
/// output point and the doubling residual.
pub open spec fn double_chain(r: MsmRow) -> (int, int, int) {
    let d1 = dbl(r.acc_x.val(), r.acc_y.val(), r.lambda1.val(), 0);
    let d2 = dbl(d1.1, d1.2, r.lambda2.val(), d1.0);
    let d3 = dbl(d2.1, d2.2, r.lambda3.val(), d2.0);
    let d4 = dbl(d3.1, d3.2, r.lambda4.val(), d3.0);
    (d4.1, d4.2, d4.0)
}

/// Sub-identities 0 to 12: the point arithmetic of the ADD, SKEW and DOUBLE
/// rounds, and the four collision checks `x_delta * inverse - selector`.
#[verifier::opaque]
pub open spec fn point_residuals(r: MsmRow, ox: int, oy: int, inv7: int) -> Seq<int> {
    let a = add_chain(r, ox, oy);
    let s = skew_chain(r, inv7);
    let d = double_chain(r);
    let sel = skew_selects(r, inv7);
    let q_add = r.q_add.val();
    let q_skew = r.q_skew.val();
    let q_double = r.q_double.val();
    let adds = seq![r.add1.val(), r.add2.val(), r.add3.val(), r.add4.val()];
    let inv = seq![r.collision_inverse1.val(), r.collision_inverse2.val(), r.collision_inverse3.val(), r.collision_inverse4.val()];
    let coll = |i: int| fsub(
        fmul(fadd(fmul(s.3[i], q_skew), fmul(a.3[i], q_add)), inv[i]),
        fadd(fmul(adds[i], q_add), fmul(q_skew, sel[i])),
    );
    seq![
        fmul(q_add, fsub(r.acc_x_shift.val(), a.0)),
        fmul(q_add, fsub(r.acc_y_shift.val(), a.1)),
        fmul(q_add, a.2),
        fmul(q_skew, fsub(r.acc_x_shift.val(), s.0)),
        fmul(q_skew, fsub(r.acc_y_shift.val(), s.1)),
        fmul(q_skew, s.2),
        coll(0),
        coll(1),
        coll(2),
        coll(3),
        fmul(q_double, fsub(r.acc_x_shift.val(), d.0)),
        fmul(q_double, fsub(r.acc_y_shift.val(), d.1)),
        fmul(q_double, d.2),
    ]
}

/// Sub-identities 13 to 35: slices vanish where no point is read, the three
/// round kinds exclude each other, the round, count and pc bookkeeping across
/// rows, the continuity of the four addition flags within and across rows,
/// and `add1 = q_add + q_skew`. The last three slots receive nothing.
#[verifier::opaque]
pub open spec fn bookkeeping_residuals(r: MsmRow) -> Seq<int> {
    let q_add = r.q_add.val();
    let q_skew = r.q_skew.val();
    let q_double = r.q_double.val();
    let mts = r.msm_transition_shift.val();
    let round_delta = fsub(r.round_shift.val(), r.round.val());
    let round_transition = fmul(round_delta, fsub(1, mts));
    let not_first = fsub(1, r.lagrange_first.val());
    let count_step = fsub(fsub(fsub(fsub(fsub(r.count_shift.val(), r.count.val()), r.add1.val()), r.add2.val()), r.add3.val()), r.add4.val());
    seq![
        fmul(fsub(1, r.add1.val()), r.slice1.val()),
        fmul(fsub(1, r.add2.val()), r.slice2.val()),
        fmul(fsub(1, r.add3.val()), r.slice3.val()),
        fmul(fsub(1, r.add4.val()), r.slice4.val()),
        fadd(fadd(fmul(q_add, q_double), fmul(q_add, q_skew)), fmul(q_double, q_skew)),
        fmul(round_transition, fsub(round_delta, 1)),
        fmul(fmul(round_transition, r.q_skew_shift.val()), fsub(r.round.val(), 31)),
        fmul(round_transition, fsub(fadd(r.q_skew_shift.val(), r.q_double_shift.val()), 1)),
        fmul(fmul(round_transition, fsub(1, r.q_double_shift.val())), fsub(1, r.q_skew_shift.val())),
        fmul(q_double, r.q_double_shift.val()),
        fmul(q_double, fsub(1, r.q_add_shift.val())),
        fmul(fmul(fsub(1, mts), fsub(1, round_delta)), count_step),
        fmul(fmul(fmul(not_first, fsub(1, mts)), round_delta), r.count_shift.val()),
        fmul(fmul(not_first, mts), r.count_shift.val()),
        fmul(fmul(not_first, mts), fsub(fadd(r.msm_size.val(), r.pc_shift.val()), r.pc.val())),
        fmul(r.add2.val(), fsub(1, r.add1.val())),
        fmul(r.add3.val(), fsub(1, r.add2.val())),
        fmul(r.add4.val(), fsub(1, r.add3.val())),
        fmul(fmul(fadd(fmul(q_add, r.q_add_shift.val()), fmul(q_skew, r.q_skew_shift.val())), fsub(1, r.add4.val())), r.add1_shift.val()),
        fsub(fsub(r.add1.val(), q_add), q_skew),
        0,
        0,
        0,
    ]
}

pub proof fn lemma_residuals_len(r: MsmRow, ox: int, oy: int, inv7: int)
    ensures
        point_residuals(r, ox, oy, inv7).len() == 13,
        bookkeeping_residuals(r).len() == 23,
        msm_residuals(r, ox, oy, inv7).len() == MSM_NUM_SUBRELATIONS,
{
    reveal(point_residuals);
    reveal(bookkeeping_residuals);
}

/// The value of every sub-identity of the MSM relation at one row, given the
/// offset generator `(ox, oy)` and the inverse of seven.
pub open spec fn msm_residuals(r: MsmRow, ox: int, oy: int, inv7: int) -> Seq<int> {
    point_residuals(r, ox, oy, inv7) + bookkeeping_residuals(r)
}

/// Adding a nonzero multiple of a nonzero residual changes a slot.
pub open spec fn changes_slot(residual: int, scaling_factor: int) -> bool {
    forall|o: int| 0 <= o < p() ==> #[trigger] fadd(o, fmul(residual, scaling_factor)) != o
}

/// A gap in the addition flags of a row is caught: reading the second point
/// without the first (`add2 = 1`, `add1 = 0`) makes sub-identity 28 one, the
/// third without the second sub-identity 29, the fourth without the third
/// sub-identity 30; so `accumulate` with any nonzero scaling factor changes
/// that slot.
pub proof fn lemma_addition_gap_detected(r: MsmRow, ox: int, oy: int, inv7: int, scaling_factor: int)
    requires
        0 < scaling_factor < p(),
    ensures
        r.add2.val() == 1 && r.add1.val() == 0 ==> msm_residuals(r, ox, oy, inv7)[28] == 1
            && changes_slot(1, scaling_factor),
        r.add3.val() == 1 && r.add2.val() == 0 ==> msm_residuals(r, ox, oy, inv7)[29] == 1
            && changes_slot(1, scaling_factor),
        r.add4.val() == 1 && r.add3.val() == 0 ==> msm_residuals(r, ox, oy, inv7)[30] == 1
            && changes_slot(1, scaling_factor),
{
    lemma_changes_slot_unit(scaling_factor);
    lemma_p_gt_one();
    lemma_canonical_mod(0);
    lemma_canonical_mod(1);
    reveal(point_residuals);
    reveal(bookkeeping_residuals);
    let res = msm_residuals(r, ox, oy, inv7);
    assert(res[28] == bookkeeping_residuals(r)[15]);
    assert(res[29] == bookkeeping_residuals(r)[16]);
    assert(res[30] == bookkeeping_residuals(r)[17]);
}

proof fn lemma_changes_slot_unit(s: int)
    requires
        0 < s < p(),
    ensures
        changes_slot(1, s),
{
    assert forall|o: int| 0 <= o < p() implies #[trigger] fadd(o, fmul(1, s)) != o by {
        lemma_canonical_mod(s);
        lemma_add_nonzero_changes(o, s);
    }
}

/// A row that adds (`q_add = 1`, `q_skew = 0`) but does not read its first
/// point (`add1 = 0`) violates sub-identity 32, `add1 = q_add + q_skew`: its
/// value is minus one.
pub proof fn lemma_add_without_first_point(r: MsmRow, ox: int, oy: int, inv7: int)
    requires
        r.add1.val() == 0,
        r.q_add.val() == 1,
        r.q_skew.val() == 0,
    ensures
        msm_residuals(r, ox, oy, inv7)[32] == p() - 1,
        msm_residuals(r, ox, oy, inv7)[32] != 0,
{
    reveal(point_residuals);
    reveal(bookkeeping_residuals);
    lemma_minus_one();
    lemma_canonical_mod(p() - 1);
    assert(msm_residuals(r, ox, oy, inv7)[32] == bookkeeping_residuals(r)[19]);
}

/// `lambda` is the slope of the chord through `(xa, ya)` and `(xb, yb)`.
pub open spec fn is_slope(xa: int, ya: int, xb: int, yb: int, lambda: int) -> bool {
    fmul(lambda, fsub(xb, xa)) == fsub(yb, ya)
}

/// The x-coordinate of the sum of two points with x-coordinates `xa`, `xb`,
/// given the chord slope: `lambda^2 - xa - xb`.
pub open spec fn chord_x(xa: int, xb: int, lambda: int) -> int {
    fsub(fsub(fmul(lambda, lambda), xa), xb)
}

/// The y-coordinate of that sum, `lambda * (xa - x3) - ya`.
pub open spec fn chord_y(xa: int, ya: int, lambda: int, x3: int) -> int {
    fsub(fmul(lambda, fsub(xa, x3)), ya)
}

/// A selected conditional addition with the chord slope adds nothing to the
/// addition residual and outputs the chord sum.
pub proof fn lemma_cond_add_selected(xb: int, yb: int, xa: int, ya: int, lambda: int, relation: int)
    requires
        0 <= xb < p(),
        0 <= yb < p(),
        0 <= xa < p(),
        0 <= ya < p(),
        0 <= lambda < p(),
        0 <= relation < p(),
        is_slope(xa, ya, xb, yb, lambda),
    ensures
        cond_add(xb, yb, xa, ya, lambda, 1, relation) == (
            relation,
            fsub(xb, xa),
            chord_x(xa, xb, lambda),
            chord_y(xa, ya, lambda, chord_x(xa, xb, lambda)),
        ),
{
    let out = cond_add(xb, yb, xa, ya, lambda, 1, relation);
    // the residual term
    let e = fsub(xb, xa);
    let d = fsub(e, 1);
    let m = fmul(lambda, d);
    let sy = fsub(yb, ya);
    let t = fsub(m, sy);
    let inner = fadd(fmul(1, t), lambda);
    lemma_cong_ops(xb, xa);
    lemma_cong_ops(e, 1);
    lemma_cong_compat(e, xb - xa, 1, 1);
    lemma_cong_ops(lambda, d);
    lemma_cong_compat(lambda, lambda, d, xb - xa - 1);
    lemma_cong_ops(yb, ya);
    lemma_cong_ops(m, sy);
    lemma_cong_compat(m, lambda * (xb - xa - 1), sy, yb - ya);
    lemma_cong_ops(1, t);
    lemma_canonical_mod(t);
    assert(fmul(1, t) == t);
    lemma_cong_ops(t, lambda);
    lemma_cong_compat(t, lambda * (xb - xa - 1) - (yb - ya), lambda, lambda);
    assert(lambda * (xb - xa - 1) - (yb - ya) + lambda == lambda * (xb - xa) - (yb - ya)) by (nonlinear_arith);
    lemma_cong_ops(lambda, e);
    lemma_cong_compat(lambda, lambda, e, xb - xa);
    lemma_cong_compat(lambda * (xb - xa), yb - ya, yb - ya, yb - ya);
    assert(cong(inner, 0));
    lemma_cong_ops(fmul(1, t), lambda);
    lemma_cong_canonical(inner, 0);
    lemma_canonical_mod(relation);
    assert(out.0 == relation);
    // the collision residual
    lemma_canonical_mod(e);
    assert(out.1 == e);
    // the output x-coordinate
    let l2 = fmul(lambda, lambda);
    let nx = fsub(fsub(fneg(xb), xa), xa);
    lemma_cong_ops(xb, 0);
    lemma_cong_ops(fneg(xb), xa);
    lemma_cong_compat(fneg(xb), -xb, xa, xa);
    lemma_cong_ops(fsub(fneg(xb), xa), xa);
    lemma_cong_compat(fsub(fneg(xb), xa), -xb - xa, xa, xa);
    lemma_cong_ops(nx, 1);
    lemma_canonical_mod(nx);
    assert(fmul(nx, 1) == nx);
    lemma_cong_ops(l2, nx);
    lemma_cong_compat(l2, l2, nx, -xb - xa - xa);
    let x_out = fadd(fadd(l2, nx), xa);
    lemma_cong_ops(fadd(l2, nx), xa);
    lemma_cong_compat(fadd(l2, nx), l2 + (-xb - xa - xa), xa, xa);
    let cx = chord_x(xa, xb, lambda);
    lemma_cong_ops(l2, xa);
    lemma_cong_ops(fsub(l2, xa), xb);
    lemma_cong_compat(fsub(l2, xa), l2 - xa, xb, xb);
    assert(l2 + (-xb - xa - xa) + xa == l2 - xa - xb);
    lemma_cong_canonical(x_out, cx);
    assert(out.2 == cx);
    // the output y-coordinate
    let q = fmul(lambda, fsub(xa, cx));
    let ny = fsub(fneg(ya), ya);
    lemma_cong_ops(ya, 0);
    lemma_cong_ops(fneg(ya), ya);
    lemma_cong_compat(fneg(ya), -ya, ya, ya);
    lemma_cong_ops(ny, 1);
    lemma_canonical_mod(ny);
    assert(fmul(ny, 1) == ny);
    lemma_cong_ops(q, ny);
    lemma_cong_compat(q, q, ny, -ya - ya);
    let y_out = fadd(fadd(q, ny), ya);
    lemma_cong_ops(fadd(q, ny), ya);
    lemma_cong_compat(fadd(q, ny), q + (-ya - ya), ya, ya);
    lemma_cong_ops(q, ya);
    assert(q + (-ya - ya) + ya == q - ya);
    lemma_cong_canonical(y_out, chord_y(xa, ya, lambda, cx));
    assert(out.3 == chord_y(xa, ya, lambda, cx));
}

/// An unselected conditional addition with zero slope leaves the residual and
/// the point as they are.
pub proof fn lemma_cond_add_skipped(xb: int, yb: int, xa: int, ya: int, relation: int)
    requires
        0 <= xa < p(),
        0 <= ya < p(),
        0 <= relation < p(),
    ensures
        cond_add(xb, yb, xa, ya, 0, 0, relation) == (relation, 0int, xa, ya),
{
    lemma_p_gt_one();
    lemma_canonical_mod(0);
    lemma_canonical_mod(relation);
    lemma_canonical_mod(xa);
    lemma_canonical_mod(ya);
    let t = fsub(fmul(0, fsub(fsub(xb, xa), 1)), fsub(yb, ya));
    assert(fmul(0, t) == 0);
    assert(fmul(0, fsub(xb, xa)) == 0);
    assert(fmul(0, 0) == 0);
    assert(fmul(fsub(fsub(fneg(xb), xa), xa), 0) == 0);
    assert(fmul(fsub(fneg(ya), ya), 0) == 0);
}

fn cond_add_exec(xb: Fe, yb: Fe, xa: Fe, ya: Fe, lambda: Fe, sel: Fe, relation: Fe) -> (out: (Fe, Fe, Fe, Fe))
    requires
        xb.wf(),
        yb.wf(),
        xa.wf(),
        ya.wf(),
        lambda.wf(),
        sel.wf(),
        relation.wf(),
    ensures
        out.0.wf() && out.1.wf() && out.2.wf() && out.3.wf(),
        (out.0.val(), out.1.val(), out.2.val(), out.3.val()) == cond_add(
            xb.val(),
            yb.val(),
            xa.val(),
            ya.val(),
            lambda.val(),
            sel.val(),
            relation.val(),
        ),
{
    let one = Fe::one();
    let t = lambda.mul(&xb.sub(&xa).sub(&one)).sub(&yb.sub(&ya));
    let rel = relation.add(&sel.mul(&t).add(&lambda));
    let coll = sel.mul(&xb.sub(&xa));
    let x_out = lambda.mul(&lambda).add(&xb.neg().sub(&xa).sub(&xa).mul(&sel)).add(&xa);
    let y_out = lambda.mul(&xa.sub(&x_out)).add(&ya.neg().sub(&ya).mul(&sel)).add(&ya);
    (rel, coll, x_out, y_out)
}

fn first_add_exec(ox: Fe, oy: Fe, acc_x: Fe, acc_y: Fe, x1: Fe, y1: Fe, lambda: Fe, t: Fe) -> (out: (Fe, Fe, Fe, Fe))
    requires
        ox.wf(),
        oy.wf(),
        acc_x.wf(),
        acc_y.wf(),
        x1.wf(),
        y1.wf(),
        lambda.wf(),
        t.wf(),
    ensures
        out.0.wf() && out.1.wf() && out.2.wf() && out.3.wf(),
        (out.0.val(), out.1.val(), out.2.val(), out.3.val()) == first_add(
            ox.val(),
            oy.val(),
            acc_x.val(),
            acc_y.val(),
            x1.val(),
            y1.val(),
            lambda.val(),
            t.val(),
        ),
{
    let one = Fe::one();
    let not_t = one.sub(&t);
    let x = ox.mul(&t).add(&acc_x.mul(&not_t));
    let y = oy.mul(&t).add(&acc_y.mul(&not_t));
    let rel = lambda.mul(&x.sub(&x1)).sub(&y.sub(&y1));
    let coll = x1.sub(&x);
    let x_out = lambda.mul(&lambda).sub(&x).sub(&x1);
    let y_out = lambda.mul(&x1.sub(&x_out)).sub(&y1);
    (rel, coll, x_out, y_out)
}

fn dbl_exec(x: Fe, y: Fe, lambda: Fe, relation: Fe) -> (out: (Fe, Fe, Fe))
    requires
        x.wf(),
        y.wf(),
        lambda.wf(),
        relation.wf(),
    ensures
        out.0.wf() && out.1.wf() && out.2.wf(),
        (out.0.val(), out.1.val(), out.2.val()) == dbl(x.val(), y.val(), lambda.val(), relation.val()),
{
    let two_x = x.add(&x);
    let rel = relation.add(&lambda.mul(&y.add(&y)).sub(&two_x.add(&x).mul(&x)));
    let x_out = lambda.mul(&lambda).sub(&two_x);
    let y_out = lambda.mul(&x.sub(&x_out)).sub(&y);
    (rel, x_out, y_out)
}

/// `x_delta * inverse - selector` for one point addition of an ADD or SKEW
/// row.
fn collision_exec(skew_coll: Fe, add_coll: Fe, inverse: Fe, add_i: Fe, sel_i: Fe, q_add: Fe, q_skew: Fe) -> (r: Fe)
    requires
        skew_coll.wf(),
        add_coll.wf(),
        inverse.wf(),
        add_i.wf(),
        sel_i.wf(),
        q_add.wf(),
        q_skew.wf(),
    ensures
        r.wf(),
        r.val() == fsub(
            fmul(fadd(fmul(skew_coll.val(), q_skew.val()), fmul(add_coll.val(), q_add.val())), inverse.val()),
            fadd(fmul(add_i.val(), q_add.val()), fmul(q_skew.val(), sel_i.val())),
        ),
{
    let delta = skew_coll.mul(&q_skew).add(&add_coll.mul(&q_add));
    let selector = add_i.mul(&q_add).add(&q_skew.mul(&sel_i));
    delta.mul(&inverse).sub(&selector)
}

/// The MSM relation, with the two constants its identities use: the offset
/// generator that stands in for the point at infinity at the start of every
/// MSM, and the inverse of seven that turns a skew slice into a selector.
#[derive(Clone, Copy, Debug)]
pub struct EccMsmRelation {
    offset_x: Fe,
    offset_y: Fe,
    inverse_seven: Fe,
}

impl EccMsmRelation {
    pub closed spec fn ox(&self) -> int {
        self.offset_x.val()
    }

    pub closed spec fn oy(&self) -> int {
        self.offset_y.val()
    }

    pub closed spec fn inv7(&self) -> int {
        self.inverse_seven.val()
    }

    pub closed spec fn wf(&self) -> bool {
        self.offset_x.wf() && self.offset_y.wf() && self.inverse_seven.wf() && is_inverse(7, self.inverse_seven.val())
    }

    /// The relation over the offset generator `(offset_x, offset_y)`; the
    /// inverse of seven is computed here, once.
    pub fn new(offset_x: Fe, offset_y: Fe) -> (r: EccMsmRelation)
        requires
            offset_x.wf(),
            offset_y.wf(),
        ensures
            r.wf(),
            r.ox() == offset_x.val(),
            r.oy() == offset_y.val(),
    {
        let seven = Fe::from_u64(7);
        let inverse_seven = match seven.inverse() {
            Some(x) => x,
            None => Fe::zero(),
        };
        EccMsmRelation { offset_x, offset_y, inverse_seven }
    }

    /// The relation never reports a row as skippable: no condition under
    /// which every sub-identity vanishes has been established.
    pub fn skip(&self, input: &Vec<MsmRow>) -> (r: bool)
        ensures
            !r,
    {
        false
    }

    fn push_point_values(&self, r: &MsmRow, out: &mut Vec<Fe>)
        requires
            self.wf(),
            r.wf(),
            all_wf(old(out)@),
        ensures
            all_wf(final(out)@),
            vals(final(out)@) == vals(old(out)@) + point_residuals(*r, self.ox(), self.oy(), self.inv7()),
    {
        let zero = Fe::zero();
        let a1 = first_add_exec(self.offset_x, self.offset_y, r.acc_x, r.acc_y, r.x1, r.y1, r.lambda1, r.msm_transition);
        let a2 = cond_add_exec(r.x2, r.y2, a1.2, a1.3, r.lambda2, r.add2, a1.0);
        let a3 = cond_add_exec(r.x3, r.y3, a2.2, a2.3, r.lambda3, r.add3, a2.0);
        let a4 = cond_add_exec(r.x4, r.y4, a3.2, a3.3, r.lambda4, r.add4, a3.0);
        let sel1 = r.slice1.mul(&self.inverse_seven);
        let sel2 = r.slice2.mul(&self.inverse_seven);
        let sel3 = r.slice3.mul(&self.inverse_seven);
        let sel4 = r.slice4.mul(&self.inverse_seven);
        let s1 = cond_add_exec(r.x1, r.y1, r.acc_x, r.acc_y, r.lambda1, sel1, zero);
        let s2 = cond_add_exec(r.x2, r.y2, s1.2, s1.3, r.lambda2, sel2, s1.0);
        let s3 = cond_add_exec(r.x3, r.y3, s2.2, s2.3, r.lambda3, sel3, s2.0);
        let s4 = cond_add_exec(r.x4, r.y4, s3.2, s3.3, r.lambda4, sel4, s3.0);
        let d1 = dbl_exec(r.acc_x, r.acc_y, r.lambda1, zero);
        let d2 = dbl_exec(d1.1, d1.2, r.lambda2, d1.0);
        let d3 = dbl_exec(d2.1, d2.2, r.lambda3, d2.0);
        let d4 = dbl_exec(d3.1, d3.2, r.lambda4, d3.0);
        let ghost a = add_chain(*r, self.ox(), self.oy());
        let ghost s = skew_chain(*r, self.inv7());
        let ghost d = double_chain(*r);
        assert(a.0 == a4.2.val() && a.1 == a4.3.val() && a.2 == a4.0.val());
        assert(a.3 == seq![a1.1.val(), a2.1.val(), a3.1.val(), a4.1.val()]);
        assert(s.0 == s4.2.val() && s.1 == s4.3.val() && s.2 == s4.0.val());
        assert(s.3 == seq![s1.1.val(), s2.1.val(), s3.1.val(), s4.1.val()]);
        assert(d.0 == d4.1.val() && d.1 == d4.2.val() && d.2 == d4.0.val());
        out.push(r.q_add.mul(&r.acc_x_shift.sub(&a4.2)));
        out.push(r.q_add.mul(&r.acc_y_shift.sub(&a4.3)));
        out.push(r.q_add.mul(&a4.0));
        out.push(r.q_skew.mul(&r.acc_x_shift.sub(&s4.2)));
        out.push(r.q_skew.mul(&r.acc_y_shift.sub(&s4.3)));
        out.push(r.q_skew.mul(&s4.0));
        out.push(collision_exec(s1.1, a1.1, r.collision_inverse1, r.add1, sel1, r.q_add, r.q_skew));
        out.push(collision_exec(s2.1, a2.1, r.collision_inverse2, r.add2, sel2, r.q_add, r.q_skew));
        out.push(collision_exec(s3.1, a3.1, r.collision_inverse3, r.add3, sel3, r.q_add, r.q_skew));
        out.push(collision_exec(s4.1, a4.1, r.collision_inverse4, r.add4, sel4, r.q_add, r.q_skew));
        out.push(r.q_double.mul(&r.acc_x_shift.sub(&d4.1)));
        out.push(r.q_double.mul(&r.acc_y_shift.sub(&d4.2)));
        out.push(r.q_double.mul(&d4.0));
        reveal(point_residuals);
        assert(vals(out@) =~= vals(old(out)@) + point_residuals(*r, self.ox(), self.oy(), self.inv7()));
    }

    fn push_bookkeeping_values(r: &MsmRow, out: &mut Vec<Fe>)
        requires
            r.wf(),
            all_wf(old(out)@),
        ensures
            all_wf(final(out)@),
            vals(final(out)@) == vals(old(out)@) + bookkeeping_residuals(*r),
    {
        let zero = Fe::zero();
        let one = Fe::one();
        let thirty_one = Fe::from_u64(31);
        let not_mts = one.sub(&r.msm_transition_shift);
        let round_delta = r.round_shift.sub(&r.round);
        let round_transition = round_delta.mul(&not_mts);
        let not_first = one.sub(&r.lagrange_first);
        let count_step = r.count_shift.sub(&r.count).sub(&r.add1).sub(&r.add2).sub(&r.add3).sub(&r.add4);
        out.push(one.sub(&r.add1).mul(&r.slice1));
        out.push(one.sub(&r.add2).mul(&r.slice2));
        out.push(one.sub(&r.add3).mul(&r.slice3));
        out.push(one.sub(&r.add4).mul(&r.slice4));
        out.push(r.q_add.mul(&r.q_double).add(&r.q_add.mul(&r.q_skew)).add(&r.q_double.mul(&r.q_skew)));
        out.push(round_transition.mul(&round_delta.sub(&one)));
        out.push(round_transition.mul(&r.q_skew_shift).mul(&r.round.sub(&thirty_one)));
        out.push(round_transition.mul(&r.q_skew_shift.add(&r.q_double_shift).sub(&one)));
        out.push(round_transition.mul(&one.sub(&r.q_double_shift)).mul(&one.sub(&r.q_skew_shift)));
        out.push(r.q_double.mul(&r.q_double_shift));
        out.push(r.q_double.mul(&one.sub(&r.q_add_shift)));
        out.push(not_mts.mul(&one.sub(&round_delta)).mul(&count_step));
        out.push(not_first.mul(&not_mts).mul(&round_delta).mul(&r.count_shift));
        out.push(not_first.mul(&r.msm_transition_shift).mul(&r.count_shift));
        out.push(not_first.mul(&r.msm_transition_shift).mul(&r.msm_size.add(&r.pc_shift).sub(&r.pc)));
        out.push(r.add2.mul(&one.sub(&r.add1)));
        out.push(r.add3.mul(&one.sub(&r.add2)));
        out.push(r.add4.mul(&one.sub(&r.add3)));
        let continuing = r.q_add.mul(&r.q_add_shift).add(&r.q_skew.mul(&r.q_skew_shift));
        out.push(continuing.mul(&one.sub(&r.add4)).mul(&r.add1_shift));
        out.push(r.add1.sub(&r.q_add).sub(&r.q_skew));
        out.push(zero);
        out.push(zero);
        out.push(zero);
        reveal(bookkeeping_residuals);
        assert(vals(out@) =~= vals(old(out)@) + bookkeeping_residuals(*r));
    }

    /// The value of every sub-identity of the relation at one row, before
    /// scaling.
    pub fn subrelation_values(&self, r: &MsmRow) -> (res: Vec<Fe>)
        requires
            self.wf(),
            r.wf(),
        ensures
            res.len() == MSM_NUM_SUBRELATIONS,
            all_wf(res@),
            vals(res@) == msm_residuals(*r, self.ox(), self.oy(), self.inv7()),
    {
        let mut out: Vec<Fe> = Vec::new();
        proof {
            lemma_residuals_len(*r, self.ox(), self.oy(), self.inv7());
        }
        assert(vals(out@) =~= Seq::<int>::empty());
        self.push_point_values(r, &mut out);
        Self::push_bookkeeping_values(r, &mut out);
        assert(vals(out@) =~= msm_residuals(*r, self.ox(), self.oy(), self.inv7()));
        out
    }

    /// A zero accumulator of the relation's shape.
    pub fn zero_accumulator() -> (r: RelationAccumulator)
        ensures
            is_msm_accumulator(&r),
            forall|i: int, k: int|
                0 <= i < MSM_NUM_SUBRELATIONS && 0 <= k < MSM_PARTIAL_LENGTH ==> #[trigger] r@[i][k] == 0,
    {
        let mut widths: Vec<usize> = Vec::new();
        let mut i: usize = 0;
        while i < MSM_NUM_SUBRELATIONS
            invariant
                i <= MSM_NUM_SUBRELATIONS,
                widths.len() == i,
                forall|j: int| 0 <= j < i ==> #[trigger] widths@[j] == MSM_PARTIAL_LENGTH,
            decreases MSM_NUM_SUBRELATIONS - i,
        {
            widths.push(MSM_PARTIAL_LENGTH);
            i = i + 1;
        }
        let r = RelationAccumulator::zero(&widths);
        assert forall|j: int| 0 <= j < MSM_NUM_SUBRELATIONS implies (#[trigger] r.slots@[j]).len()
            == MSM_PARTIAL_LENGTH by {
            assert(r@[j] == r.slots@[j]@);
        }
        assert forall|j: int, k: int|
            0 <= j < MSM_NUM_SUBRELATIONS && 0 <= k < MSM_PARTIAL_LENGTH implies #[trigger] r@[j][k] == 0 by {
            assert(r@[j] == zeros(widths@[j] as nat));
        }
        r
    }

    /// Adds, for every sub-identity `i` and every evaluation point `k`, the
    /// value of sub-identity `i` at `input[k]` times `scaling_factor` into
    /// slot `i` at point `k`. Nothing else changes. The MSM relation reads no
    /// relation parameter.
    pub fn accumulate(
        &self,
        univariate_accumulator: &mut RelationAccumulator,
        input: &Vec<MsmRow>,
        relation_parameters: &RelationParameters,
        scaling_factor: &Fe,
    )
        requires
            self.wf(),
            is_msm_accumulator(old(univariate_accumulator)),
            input.len() >= MSM_PARTIAL_LENGTH,
            forall|k: int| 0 <= k < input.len() ==> (#[trigger] input@[k]).wf(),
            scaling_factor.wf(),
        ensures
            is_msm_accumulator(final(univariate_accumulator)),
            forall|i: int, k: int|
                0 <= i < MSM_NUM_SUBRELATIONS && 0 <= k < MSM_PARTIAL_LENGTH ==> #[trigger] final(univariate_accumulator)@[i][k] == fadd(
                    old(univariate_accumulator)@[i][k],
                    fmul(msm_residuals(input@[k], self.ox(), self.oy(), self.inv7())[i], scaling_factor.val()),
                ),
    {
        let mut rows: Vec<Vec<Fe>> = Vec::new();
        let mut k: usize = 0;
        while k < MSM_PARTIAL_LENGTH
            invariant
                k <= MSM_PARTIAL_LENGTH,
                self.wf(),
                input.len() >= MSM_PARTIAL_LENGTH,
                forall|j: int| 0 <= j < input.len() ==> (#[trigger] input@[j]).wf(),
                rows.len() == k,
                forall|j: int| 0 <= j < k ==> (#[trigger] rows@[j]).len() == MSM_NUM_SUBRELATIONS && all_wf(rows@[j]@),
                forall|j: int|
                    0 <= j < k ==> vals((#[trigger] rows@[j])@) == msm_residuals(
                        input@[j],
                        self.ox(),
                        self.oy(),
                        self.inv7(),
                    ),
            decreases MSM_PARTIAL_LENGTH - k,
        {
            rows.push(self.subrelation_values(&input[k]));
            k = k + 1;
        }
        let mut slots: Vec<Univariate> = Vec::new();
        let mut i: usize = 0;
        while i < MSM_NUM_SUBRELATIONS
            invariant
                i <= MSM_NUM_SUBRELATIONS,
                is_msm_accumulator(univariate_accumulator),
                scaling_factor.wf(),
                rows.len() == MSM_PARTIAL_LENGTH,
                forall|j: int| 0 <= j < MSM_PARTIAL_LENGTH ==> (#[trigger] rows@[j]).len() == MSM_NUM_SUBRELATIONS && all_wf(rows@[j]@),
                slots.len() == i,
                forall|j: int| 0 <= j < i ==> (#[trigger] slots@[j]).wf() && slots@[j].len() == MSM_PARTIAL_LENGTH,
                forall|j: int, m: int|
                    0 <= j < i && 0 <= m < MSM_PARTIAL_LENGTH ==> #[trigger] slots@[j].evaluations@[m].val() == fadd(
                        univariate_accumulator.slots@[j].evaluations@[m].val(),
                        fmul(rows@[m]@[j].val(), scaling_factor.val()),
                    ),
            decreases MSM_NUM_SUBRELATIONS - i,
        {
            let mut e: Vec<Fe> = Vec::new();
            let mut m: usize = 0;
            while m < MSM_PARTIAL_LENGTH
                invariant
                    m <= MSM_PARTIAL_LENGTH,
                    i < MSM_NUM_SUBRELATIONS,
                    is_msm_accumulator(univariate_accumulator),
                    scaling_factor.wf(),
                    rows.len() == MSM_PARTIAL_LENGTH,
                    forall|j: int| 0 <= j < MSM_PARTIAL_LENGTH ==> (#[trigger] rows@[j]).len() == MSM_NUM_SUBRELATIONS && all_wf(rows@[j]@),
                    e.len() == m,
                    all_wf(e@),
                    forall|n: int|
                        0 <= n < m ==> #[trigger] e@[n].val() == fadd(
                            univariate_accumulator.slots@[i as int].evaluations@[n].val(),
                            fmul(rows@[n]@[i as int].val(), scaling_factor.val()),
                        ),
                decreases MSM_PARTIAL_LENGTH - m,
            {
                assert(univariate_accumulator.slots@[i as int].wf());
                assert(all_wf(rows@[m as int]@));
                let t = rows[m][i].mul(scaling_factor);
                e.push(univariate_accumulator.slots[i].evaluations[m].add(&t));
                m = m + 1;
            }
            slots.push(Univariate { evaluations: e });
            i = i + 1;
        }
        let ghost before = *univariate_accumulator;
        univariate_accumulator.slots = slots;
        assert forall|j: int, m: int|
            0 <= j < MSM_NUM_SUBRELATIONS && 0 <= m < MSM_PARTIAL_LENGTH implies #[trigger] univariate_accumulator@[j][m]
            == fadd(before@[j][m], fmul(msm_residuals(input@[m], self.ox(), self.oy(), self.inv7())[j], scaling_factor.val())) by {
            assert(univariate_accumulator@[j] == univariate_accumulator.slots@[j]@);
            assert(before@[j] == before.slots@[j]@);
            assert(vals(rows@[m]@)[j] == rows@[m]@[j].val());
        }
    }

    /// The same contract as `accumulate` over one row of claimed scalar
    /// evaluations: adds the value of sub-identity `i` at `input`, times
    /// `scaling_factor`, into `evaluations[i]`.
    pub fn verify_accumulate(
        &self,
        evaluations: &mut Vec<Fe>,
        input: &MsmRow,
        relation_parameters: &RelationParameters,
        scaling_factor: &Fe,
    )
        requires
            self.wf(),
            old(evaluations).len() == MSM_NUM_SUBRELATIONS,
            all_wf(old(evaluations)@),
            input.wf(),
            scaling_factor.wf(),
        ensures
            final(evaluations).len() == MSM_NUM_SUBRELATIONS,
            all_wf(final(evaluations)@),
            forall|i: int|
                0 <= i < MSM_NUM_SUBRELATIONS ==> #[trigger] final(evaluations)@[i].val() == fadd(
                    old(evaluations)@[i].val(),
                    fmul(msm_residuals(*input, self.ox(), self.oy(), self.inv7())[i], scaling_factor.val()),
                ),
    {
        let values = self.subrelation_values(input);
        let mut i: usize = 0;
        while i < MSM_NUM_SUBRELATIONS
            invariant
                i <= MSM_NUM_SUBRELATIONS,
                values.len() == MSM_NUM_SUBRELATIONS,
                all_wf(values@),
                vals(values@) == msm_residuals(*input, self.ox(), self.oy(), self.inv7()),
                scaling_factor.wf(),
                evaluations.len() == MSM_NUM_SUBRELATIONS,
                all_wf(evaluations@),
                forall|j: int|
                    0 <= j < i ==> #[trigger] evaluations@[j].val() == fadd(
                        old(evaluations)@[j].val(),
                        fmul(values@[j].val(), scaling_factor.val()),
                    ),
                forall|j: int| i <= j < MSM_NUM_SUBRELATIONS ==> #[trigger] evaluations@[j] == old(evaluations)@[j],
            decreases MSM_NUM_SUBRELATIONS - i,
        {
            let t = values[i].mul(scaling_factor);
            let v = evaluations[i].add(&t);
            evaluations.set(i, v);
            i = i + 1;
        }
        assert forall|j: int| 0 <= j < MSM_NUM_SUBRELATIONS implies #[trigger] evaluations@[j].val() == fadd(
            old(evaluations)@[j].val(),
            fmul(msm_residuals(*input, self.ox(), self.oy(), self.inv7())[j], scaling_factor.val()),
        ) by {
            assert(vals(values@)[j] == values@[j].val());
        }
    }
}

} // verus!
