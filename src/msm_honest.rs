//! What an honest prover writes into the MSM columns, and the fact that such
//! rows make every sub-identity of the MSM relation vanish.
use crate::field::{fadd, fmul, fsub, is_inverse, lemma_canonical_mod, lemma_cong_canonical, lemma_cong_compat, lemma_cong_ops, lemma_field_units, lemma_p_gt_one, p};
use crate::msm_relation::{
    add_chain, bookkeeping_residuals, chord_x, chord_y, cond_add, dbl, double_chain, first_add, is_slope,
    lemma_cond_add_selected, lemma_cond_add_skipped, msm_residuals, point_residuals, skew_chain, skew_selects,
    MsmRow, MSM_NUM_SUBRELATIONS,
};
use vstd::prelude::*;

verus! {

pub open spec fn is_bit(x: int) -> bool {
    x == 0 || x == 1
}

/// The point after one addition step: the chord sum of `prev` and `(x, y)`
/// when the step is taken, `prev` when it is not.
pub open spec fn step_point(prev: (int, int), x: int, y: int, lambda: int, taken: bool) -> (int, int) {
    if taken {
        let x3 = chord_x(prev.0, x, lambda);
        (x3, chord_y(prev.0, prev.1, lambda, x3))
    } else {
        prev
    }
}

/// The witnesses of one addition step: when taken, `lambda` is the chord
/// slope and `inverse` inverts the x-distance (the x-coordinates differ);
/// when not taken, `lambda` is zero.
pub open spec fn honest_step(prev: (int, int), x: int, y: int, lambda: int, inverse: int, taken: bool) -> bool {
    if taken {
        is_slope(prev.0, prev.1, x, y, lambda) && fmul(fsub(x, prev.0), inverse) == 1
    } else {
        lambda == 0
    }
}

/// The point the first addition of a row starts from: the offset generator
/// at the start of an MSM, the running accumulator otherwise.
pub open spec fn add_base(r: MsmRow, ox: int, oy: int) -> (int, int) {
    if r.msm_transition.val() == 1 {
        (ox, oy)
    } else {
        (r.acc_x.val(), r.acc_y.val())
    }
}

/// The point after the first addition of an ADD row.
pub open spec fn first_point(r: MsmRow, ox: int, oy: int) -> (int, int) {
    let b = add_base(r, ox, oy);
    let x3 = chord_x(b.0, r.x1.val(), r.lambda1.val());
    (x3, chord_y(r.x1.val(), r.y1.val(), r.lambda1.val(), x3))
}

/// An honest ADD row: the first point is added to the base with the chord
/// slope and distinct x-coordinates, each further point flagged by `add_i` is
/// added likewise, and the next row's accumulator is the result.
pub open spec fn honest_add_points(r: MsmRow, ox: int, oy: int) -> bool {
    let b = add_base(r, ox, oy);
    let pt1 = first_point(r, ox, oy);
    let pt2 = step_point(pt1, r.x2.val(), r.y2.val(), r.lambda2.val(), r.add2.val() == 1);
    let pt3 = step_point(pt2, r.x3.val(), r.y3.val(), r.lambda3.val(), r.add3.val() == 1);
    let pt4 = step_point(pt3, r.x4.val(), r.y4.val(), r.lambda4.val(), r.add4.val() == 1);
    &&& is_bit(r.msm_transition.val())
    &&& is_slope(r.x1.val(), r.y1.val(), b.0, b.1, r.lambda1.val())
    &&& fmul(fsub(r.x1.val(), b.0), r.collision_inverse1.val()) == 1
    &&& honest_step(pt1, r.x2.val(), r.y2.val(), r.lambda2.val(), r.collision_inverse2.val(), r.add2.val() == 1)
    &&& honest_step(pt2, r.x3.val(), r.y3.val(), r.lambda3.val(), r.collision_inverse3.val(), r.add3.val() == 1)
    &&& honest_step(pt3, r.x4.val(), r.y4.val(), r.lambda4.val(), r.collision_inverse4.val(), r.add4.val() == 1)
    &&& r.acc_x_shift.val() == pt4.0
    &&& r.acc_y_shift.val() == pt4.1
}

proof fn lemma_first_add_honest(r: MsmRow, ox: int, oy: int)
    requires
        r.wf(),
        0 <= ox < p(),
        0 <= oy < p(),
        honest_add_points(r, ox, oy),
    ensures
        first_add(ox, oy, r.acc_x.val(), r.acc_y.val(), r.x1.val(), r.y1.val(), r.lambda1.val(), r.msm_transition.val())
            == (0int, fsub(r.x1.val(), add_base(r, ox, oy).0), first_point(r, ox, oy).0, first_point(r, ox, oy).1),
{
    lemma_field_units(ox);
    lemma_field_units(oy);
    lemma_field_units(r.acc_x.val());
    lemma_field_units(r.acc_y.val());
    lemma_p_gt_one();
    lemma_canonical_mod(1);
    lemma_canonical_mod(0);
    let t = r.msm_transition.val();
    assert(fsub(1, 1) == 0);
    assert(fsub(1, 0) == 1);
    let b = add_base(r, ox, oy);
    if t == 1 {
        assert(fmul(ox, 1) == ox && fmul(r.acc_x.val(), 0) == 0 && fadd(ox, 0) == ox);
        assert(fmul(oy, 1) == oy && fmul(r.acc_y.val(), 0) == 0 && fadd(oy, 0) == oy);
    } else {
        assert(fmul(ox, 0) == 0 && fmul(r.acc_x.val(), 1) == r.acc_x.val() && fadd(0, r.acc_x.val()) == r.acc_x.val());
        assert(fmul(oy, 0) == 0 && fmul(r.acc_y.val(), 1) == r.acc_y.val() && fadd(0, r.acc_y.val()) == r.acc_y.val());
    }
    assert(fadd(fmul(ox, t), fmul(r.acc_x.val(), fsub(1, t))) == b.0);
    assert(fadd(fmul(oy, t), fmul(r.acc_y.val(), fsub(1, t))) == b.1);
    lemma_cong_ops(b.1, r.y1.val());
}

proof fn lemma_step(prev: (int, int), x: int, y: int, lambda: int, inverse: int, sel: int, rel: int)
    requires
        0 <= prev.0 < p(),
        0 <= prev.1 < p(),
        0 <= x < p(),
        0 <= y < p(),
        0 <= lambda < p(),
        0 <= rel < p(),
        is_bit(sel),
        honest_step(prev, x, y, lambda, inverse, sel == 1),
    ensures
        cond_add(x, y, prev.0, prev.1, lambda, sel, rel) == (
            rel,
            if sel == 1 { fsub(x, prev.0) } else { 0 },
            step_point(prev, x, y, lambda, sel == 1).0,
            step_point(prev, x, y, lambda, sel == 1).1,
        ),
        0 <= step_point(prev, x, y, lambda, sel == 1).0 < p(),
        0 <= step_point(prev, x, y, lambda, sel == 1).1 < p(),
        sel == 1 ==> fmul(fsub(x, prev.0), inverse) == 1,
{
    if sel == 1 {
        lemma_cond_add_selected(x, y, prev.0, prev.1, lambda, rel);
        let x3 = chord_x(prev.0, x, lambda);
        lemma_cong_ops(fsub(fmul(lambda, lambda), prev.0), x);
        lemma_cong_ops(fmul(lambda, fsub(prev.0, x3)), prev.1);
    } else {
        lemma_cond_add_skipped(x, y, prev.0, prev.1, rel);
    }
}

/// The collision residual of one addition step of an ADD or SKEW row.
proof fn lemma_collision_zero(coll_skew: int, coll_add: int, inverse: int, add_i: int, sel_i: int, q_add: int, q_skew: int)
    requires
        0 <= coll_skew < p(),
        0 <= coll_add < p(),
        0 <= inverse < p(),
        (q_add == 0 && q_skew == 0) || (q_add == 1 && q_skew == 0 && is_bit(add_i) && (add_i == 1 ==> fmul(coll_add, inverse) == 1)
            && (add_i == 0 ==> coll_add == 0)) || (q_add == 0 && q_skew == 1 && is_bit(sel_i) && (sel_i == 1
            ==> fmul(coll_skew, inverse) == 1) && (sel_i == 0 ==> coll_skew == 0)),
        0 <= sel_i < p(),
        is_bit(add_i),
    ensures
        fsub(
            fmul(fadd(fmul(coll_skew, q_skew), fmul(coll_add, q_add)), inverse),
            fadd(fmul(add_i, q_add), fmul(q_skew, sel_i)),
        ) == 0,
{
    lemma_field_units(coll_skew);
    lemma_field_units(coll_add);
    lemma_field_units(inverse);
    lemma_field_units(add_i);
    lemma_field_units(sel_i);
    lemma_field_units(0);
    lemma_field_units(1);
}

/// The point sub-identities of an honest ADD row vanish.
proof fn lemma_add_row_points(r: MsmRow, ox: int, oy: int, inv7: int)
    requires
        r.wf(),
        0 <= ox < p(),
        0 <= oy < p(),
        0 <= inv7 < p(),
        honest_add_points(r, ox, oy),
        r.q_add.val() == 1,
        r.q_skew.val() == 0,
        r.q_double.val() == 0,
        r.add1.val() == 1,
        is_bit(r.add2.val()),
        is_bit(r.add3.val()),
        is_bit(r.add4.val()),
    ensures
        forall|i: int| 0 <= i < 13 ==> #[trigger] point_residuals(r, ox, oy, inv7)[i] == 0,
{
    reveal(point_residuals);
    lemma_p_gt_one();
    lemma_first_add_honest(r, ox, oy);
    let b = add_base(r, ox, oy);
    let pt1 = first_point(r, ox, oy);
    lemma_cong_ops(fsub(fmul(r.lambda1.val(), r.lambda1.val()), b.0), r.x1.val());
    lemma_cong_ops(fmul(r.lambda1.val(), fsub(r.x1.val(), pt1.0)), r.y1.val());
    lemma_cong_ops(r.x1.val(), b.0);
    lemma_step(pt1, r.x2.val(), r.y2.val(), r.lambda2.val(), r.collision_inverse2.val(), r.add2.val(), 0);
    let pt2 = step_point(pt1, r.x2.val(), r.y2.val(), r.lambda2.val(), r.add2.val() == 1);
    lemma_step(pt2, r.x3.val(), r.y3.val(), r.lambda3.val(), r.collision_inverse3.val(), r.add3.val(), 0);
    let pt3 = step_point(pt2, r.x3.val(), r.y3.val(), r.lambda3.val(), r.add3.val() == 1);
    lemma_step(pt3, r.x4.val(), r.y4.val(), r.lambda4.val(), r.collision_inverse4.val(), r.add4.val(), 0);
    let pt4 = step_point(pt3, r.x4.val(), r.y4.val(), r.lambda4.val(), r.add4.val() == 1);
    let a = add_chain(r, ox, oy);
    assert(a.0 == pt4.0 && a.1 == pt4.1 && a.2 == 0);
    let s = skew_chain(r, inv7);
    let sel = skew_selects(r, inv7);
    let d = double_chain(r);
    lemma_field_units(0);
    lemma_field_units(1);
    lemma_field_units(pt4.0);
    lemma_field_units(pt4.1);
    assert(fmul(0int, fsub(r.acc_x_shift.val(), s.0)) == 0);
    assert(fmul(0int, fsub(r.acc_y_shift.val(), s.1)) == 0);
    assert(fmul(0int, s.2) == 0);
    assert(fmul(0int, fsub(r.acc_x_shift.val(), d.0)) == 0);
    assert(fmul(0int, fsub(r.acc_y_shift.val(), d.1)) == 0);
    assert(fmul(0int, d.2) == 0);
    lemma_cong_ops(r.slice1.val(), inv7);
    lemma_cong_ops(r.slice2.val(), inv7);
    lemma_cong_ops(r.slice3.val(), inv7);
    lemma_cong_ops(r.slice4.val(), inv7);
    lemma_skew_chain_canonical(r, inv7);
    lemma_collision_zero(s.3[0], a.3[0], r.collision_inverse1.val(), r.add1.val(), sel[0], 1, 0);
    lemma_collision_zero(s.3[1], a.3[1], r.collision_inverse2.val(), r.add2.val(), sel[1], 1, 0);
    lemma_collision_zero(s.3[2], a.3[2], r.collision_inverse3.val(), r.add3.val(), sel[2], 1, 0);
    lemma_collision_zero(s.3[3], a.3[3], r.collision_inverse4.val(), r.add4.val(), sel[3], 1, 0);
}

proof fn lemma_cond_add_canonical(xb: int, yb: int, xa: int, ya: int, lambda: int, sel: int, relation: int)
    ensures
        0 <= cond_add(xb, yb, xa, ya, lambda, sel, relation).0 < p(),
        0 <= cond_add(xb, yb, xa, ya, lambda, sel, relation).1 < p(),
        0 <= cond_add(xb, yb, xa, ya, lambda, sel, relation).2 < p(),
        0 <= cond_add(xb, yb, xa, ya, lambda, sel, relation).3 < p(),
{
    let out = cond_add(xb, yb, xa, ya, lambda, sel, relation);
    lemma_cong_ops(relation, fadd(fmul(sel, fsub(fmul(lambda, fsub(fsub(xb, xa), 1)), fsub(yb, ya))), lambda));
    lemma_cong_ops(sel, fsub(xb, xa));
    lemma_cong_ops(fadd(fmul(lambda, lambda), fmul(fsub(fsub(-xb % p(), xa), xa), sel)), xa);
    lemma_cong_ops(fadd(fmul(lambda, fsub(xa, out.2)), fmul(fsub(-ya % p(), ya), sel)), ya);
}

proof fn lemma_skew_chain_canonical(r: MsmRow, inv7: int)
    ensures
        0 <= skew_chain(r, inv7).3[0] < p(),
        0 <= skew_chain(r, inv7).3[1] < p(),
        0 <= skew_chain(r, inv7).3[2] < p(),
        0 <= skew_chain(r, inv7).3[3] < p(),
        0 <= skew_chain(r, inv7).2 < p(),
        0 <= skew_chain(r, inv7).1 < p(),
        0 <= skew_chain(r, inv7).0 < p(),
{
    let s = skew_selects(r, inv7);
    let a1 = cond_add(r.x1.val(), r.y1.val(), r.acc_x.val(), r.acc_y.val(), r.lambda1.val(), s[0], 0);
    let a2 = cond_add(r.x2.val(), r.y2.val(), a1.2, a1.3, r.lambda2.val(), s[1], a1.0);
    let a3 = cond_add(r.x3.val(), r.y3.val(), a2.2, a2.3, r.lambda3.val(), s[2], a2.0);
    lemma_cond_add_canonical(r.x1.val(), r.y1.val(), r.acc_x.val(), r.acc_y.val(), r.lambda1.val(), s[0], 0);
    lemma_cond_add_canonical(r.x2.val(), r.y2.val(), a1.2, a1.3, r.lambda2.val(), s[1], a1.0);
    lemma_cond_add_canonical(r.x3.val(), r.y3.val(), a2.2, a2.3, r.lambda3.val(), s[2], a2.0);
    lemma_cond_add_canonical(r.x4.val(), r.y4.val(), a3.2, a3.3, r.lambda4.val(), s[3], a3.0);
}

/// An honest SKEW row: the slices are zero or seven, each point whose slice
/// is seven is added with the chord slope and distinct x-coordinates, the
/// others are skipped, and the next row's accumulator is the result.
pub open spec fn honest_skew_points(r: MsmRow) -> bool {
    let acc = (r.acc_x.val(), r.acc_y.val());
    let q1 = step_point(acc, r.x1.val(), r.y1.val(), r.lambda1.val(), r.slice1.val() == 7);
    let q2 = step_point(q1, r.x2.val(), r.y2.val(), r.lambda2.val(), r.slice2.val() == 7);
    let q3 = step_point(q2, r.x3.val(), r.y3.val(), r.lambda3.val(), r.slice3.val() == 7);
    let q4 = step_point(q3, r.x4.val(), r.y4.val(), r.lambda4.val(), r.slice4.val() == 7);
    &&& r.slice1.val() == 0 || r.slice1.val() == 7
    &&& r.slice2.val() == 0 || r.slice2.val() == 7
    &&& r.slice3.val() == 0 || r.slice3.val() == 7
    &&& r.slice4.val() == 0 || r.slice4.val() == 7
    &&& honest_step(acc, r.x1.val(), r.y1.val(), r.lambda1.val(), r.collision_inverse1.val(), r.slice1.val() == 7)
    &&& honest_step(q1, r.x2.val(), r.y2.val(), r.lambda2.val(), r.collision_inverse2.val(), r.slice2.val() == 7)
    &&& honest_step(q2, r.x3.val(), r.y3.val(), r.lambda3.val(), r.collision_inverse3.val(), r.slice3.val() == 7)
    &&& honest_step(q3, r.x4.val(), r.y4.val(), r.lambda4.val(), r.collision_inverse4.val(), r.slice4.val() == 7)
    &&& r.acc_x_shift.val() == q4.0
    &&& r.acc_y_shift.val() == q4.1
}

/// `lambda` is the tangent slope at `(x, y)`: `lambda * 2y = 3x * x`.
pub open spec fn is_tangent(x: int, y: int, lambda: int) -> bool {
    fmul(lambda, fadd(y, y)) == fmul(fadd(fadd(x, x), x), x)
}

/// The double of `(x, y)` given the tangent slope.
pub open spec fn tangent_point(p: (int, int), lambda: int) -> (int, int) {
    let x3 = fsub(fmul(lambda, lambda), fadd(p.0, p.0));
    (x3, fsub(fmul(lambda, fsub(p.0, x3)), p.1))
}

/// An honest DOUBLE row: the accumulator is doubled four times with the
/// tangent slopes, and the next row's accumulator is the result.
pub open spec fn honest_double_points(r: MsmRow) -> bool {
    let d0 = (r.acc_x.val(), r.acc_y.val());
    let d1 = tangent_point(d0, r.lambda1.val());
    let d2 = tangent_point(d1, r.lambda2.val());
    let d3 = tangent_point(d2, r.lambda3.val());
    let d4 = tangent_point(d3, r.lambda4.val());
    &&& is_tangent(d0.0, d0.1, r.lambda1.val())
    &&& is_tangent(d1.0, d1.1, r.lambda2.val())
    &&& is_tangent(d2.0, d2.1, r.lambda3.val())
    &&& is_tangent(d3.0, d3.1, r.lambda4.val())
    &&& r.acc_x_shift.val() == d4.0
    &&& r.acc_y_shift.val() == d4.1
}

proof fn lemma_add_chain_canonical(r: MsmRow, ox: int, oy: int)
    ensures
        0 <= add_chain(r, ox, oy).3[0] < p(),
        0 <= add_chain(r, ox, oy).3[1] < p(),
        0 <= add_chain(r, ox, oy).3[2] < p(),
        0 <= add_chain(r, ox, oy).3[3] < p(),
{
    let a1 = first_add(ox, oy, r.acc_x.val(), r.acc_y.val(), r.x1.val(), r.y1.val(), r.lambda1.val(), r.msm_transition.val());
    let a2 = cond_add(r.x2.val(), r.y2.val(), a1.2, a1.3, r.lambda2.val(), r.add2.val(), a1.0);
    let a3 = cond_add(r.x3.val(), r.y3.val(), a2.2, a2.3, r.lambda3.val(), r.add3.val(), a2.0);
    let x = fadd(fmul(ox, r.msm_transition.val()), fmul(r.acc_x.val(), fsub(1, r.msm_transition.val())));
    lemma_cong_ops(r.x1.val(), x);
    lemma_cond_add_canonical(r.x2.val(), r.y2.val(), a1.2, a1.3, r.lambda2.val(), r.add2.val(), a1.0);
    lemma_cond_add_canonical(r.x3.val(), r.y3.val(), a2.2, a2.3, r.lambda3.val(), r.add3.val(), a2.0);
    lemma_cond_add_canonical(r.x4.val(), r.y4.val(), a3.2, a3.3, r.lambda4.val(), r.add4.val(), a3.0);
}

/// The selector of a skew addition is one for slice seven, zero for zero.
proof fn lemma_skew_select(slice: int, inv7: int)
    requires
        slice == 0 || slice == 7,
        is_inverse(7, inv7),
    ensures
        fmul(slice, inv7) == if slice == 7 { 1int } else { 0int },
{
    lemma_p_gt_one();
    lemma_field_units(inv7);
}

/// The point sub-identities of an honest SKEW row vanish.
proof fn lemma_skew_row_points(r: MsmRow, ox: int, oy: int, inv7: int)
    requires
        r.wf(),
        0 <= ox < p(),
        0 <= oy < p(),
        is_inverse(7, inv7),
        honest_skew_points(r),
        r.q_add.val() == 0,
        r.q_skew.val() == 1,
        r.q_double.val() == 0,
        is_bit(r.add1.val()),
        is_bit(r.add2.val()),
        is_bit(r.add3.val()),
        is_bit(r.add4.val()),
    ensures
        forall|i: int| 0 <= i < 13 ==> #[trigger] point_residuals(r, ox, oy, inv7)[i] == 0,
{
    reveal(point_residuals);
    lemma_p_gt_one();
    let sel = skew_selects(r, inv7);
    lemma_skew_select(r.slice1.val(), inv7);
    lemma_skew_select(r.slice2.val(), inv7);
    lemma_skew_select(r.slice3.val(), inv7);
    lemma_skew_select(r.slice4.val(), inv7);
    let acc = (r.acc_x.val(), r.acc_y.val());
    lemma_step(acc, r.x1.val(), r.y1.val(), r.lambda1.val(), r.collision_inverse1.val(), sel[0], 0);
    let q1 = step_point(acc, r.x1.val(), r.y1.val(), r.lambda1.val(), r.slice1.val() == 7);
    lemma_step(q1, r.x2.val(), r.y2.val(), r.lambda2.val(), r.collision_inverse2.val(), sel[1], 0);
    let q2 = step_point(q1, r.x2.val(), r.y2.val(), r.lambda2.val(), r.slice2.val() == 7);
    lemma_step(q2, r.x3.val(), r.y3.val(), r.lambda3.val(), r.collision_inverse3.val(), sel[2], 0);
    let q3 = step_point(q2, r.x3.val(), r.y3.val(), r.lambda3.val(), r.slice3.val() == 7);
    lemma_step(q3, r.x4.val(), r.y4.val(), r.lambda4.val(), r.collision_inverse4.val(), sel[3], 0);
    let q4 = step_point(q3, r.x4.val(), r.y4.val(), r.lambda4.val(), r.slice4.val() == 7);
    let s = skew_chain(r, inv7);
    assert(s.0 == q4.0 && s.1 == q4.1 && s.2 == 0);
    let a = add_chain(r, ox, oy);
    let d = double_chain(r);
    lemma_field_units(0);
    lemma_field_units(1);
    lemma_field_units(q4.0);
    lemma_field_units(q4.1);
    assert(fmul(0int, fsub(r.acc_x_shift.val(), a.0)) == 0);
    assert(fmul(0int, fsub(r.acc_y_shift.val(), a.1)) == 0);
    assert(fmul(0int, a.2) == 0);
    assert(fmul(0int, fsub(r.acc_x_shift.val(), d.0)) == 0);
    assert(fmul(0int, fsub(r.acc_y_shift.val(), d.1)) == 0);
    assert(fmul(0int, d.2) == 0);
    lemma_add_chain_canonical(r, ox, oy);
    lemma_collision_zero(s.3[0], a.3[0], r.collision_inverse1.val(), r.add1.val(), sel[0], 0, 1);
    lemma_collision_zero(s.3[1], a.3[1], r.collision_inverse2.val(), r.add2.val(), sel[1], 0, 1);
    lemma_collision_zero(s.3[2], a.3[2], r.collision_inverse3.val(), r.add3.val(), sel[2], 0, 1);
    lemma_collision_zero(s.3[3], a.3[3], r.collision_inverse4.val(), r.add4.val(), sel[3], 0, 1);
}

proof fn lemma_tangent_step(p0: (int, int), lambda: int, rel: int)
    requires
        0 <= p0.0 < p(),
        0 <= p0.1 < p(),
        0 <= rel < p(),
        is_tangent(p0.0, p0.1, lambda),
    ensures
        dbl(p0.0, p0.1, lambda, rel) == (rel, tangent_point(p0, lambda).0, tangent_point(p0, lambda).1),
        0 <= tangent_point(p0, lambda).0 < p(),
        0 <= tangent_point(p0, lambda).1 < p(),
{
    let t = fmul(lambda, fadd(p0.1, p0.1));
    lemma_cong_ops(t, 0);
    lemma_field_units(t);
    lemma_field_units(rel);
    lemma_cong_ops(fmul(lambda, lambda), fadd(p0.0, p0.0));
    let x3 = tangent_point(p0, lambda).0;
    lemma_cong_ops(fmul(lambda, fsub(p0.0, x3)), p0.1);
}

/// The point sub-identities of an honest DOUBLE row vanish.
proof fn lemma_double_row_points(r: MsmRow, ox: int, oy: int, inv7: int)
    requires
        r.wf(),
        honest_double_points(r),
        r.q_add.val() == 0,
        r.q_skew.val() == 0,
        r.q_double.val() == 1,
        r.add1.val() == 0,
        r.add2.val() == 0,
        r.add3.val() == 0,
        r.add4.val() == 0,
    ensures
        forall|i: int| 0 <= i < 13 ==> #[trigger] point_residuals(r, ox, oy, inv7)[i] == 0,
{
    reveal(point_residuals);
    lemma_p_gt_one();
    let d0 = (r.acc_x.val(), r.acc_y.val());
    lemma_tangent_step(d0, r.lambda1.val(), 0);
    let d1 = tangent_point(d0, r.lambda1.val());
    lemma_tangent_step(d1, r.lambda2.val(), 0);
    let d2 = tangent_point(d1, r.lambda2.val());
    lemma_tangent_step(d2, r.lambda3.val(), 0);
    let d3 = tangent_point(d2, r.lambda3.val());
    lemma_tangent_step(d3, r.lambda4.val(), 0);
    let d4 = tangent_point(d3, r.lambda4.val());
    let d = double_chain(r);
    assert(d.0 == d4.0 && d.1 == d4.1 && d.2 == 0);
    let a = add_chain(r, ox, oy);
    let s = skew_chain(r, inv7);
    let sel = skew_selects(r, inv7);
    lemma_field_units(0);
    lemma_field_units(1);
    lemma_field_units(d4.0);
    lemma_field_units(d4.1);
    assert(fmul(0int, fsub(r.acc_x_shift.val(), a.0)) == 0);
    assert(fmul(0int, fsub(r.acc_y_shift.val(), a.1)) == 0);
    assert(fmul(0int, a.2) == 0);
    assert(fmul(0int, fsub(r.acc_x_shift.val(), s.0)) == 0);
    assert(fmul(0int, fsub(r.acc_y_shift.val(), s.1)) == 0);
    assert(fmul(0int, s.2) == 0);
    lemma_add_chain_canonical(r, ox, oy);
    lemma_skew_chain_canonical(r, inv7);
    lemma_cong_ops(r.slice1.val(), inv7);
    lemma_cong_ops(r.slice2.val(), inv7);
    lemma_cong_ops(r.slice3.val(), inv7);
    lemma_cong_ops(r.slice4.val(), inv7);
    lemma_collision_zero(s.3[0], a.3[0], r.collision_inverse1.val(), 0, sel[0], 0, 0);
    lemma_collision_zero(s.3[1], a.3[1], r.collision_inverse2.val(), 0, sel[1], 0, 0);
    lemma_collision_zero(s.3[2], a.3[2], r.collision_inverse3.val(), 0, sel[2], 0, 0);
    lemma_collision_zero(s.3[3], a.3[3], r.collision_inverse4.val(), 0, sel[3], 0, 0);
}

/// The selector and flag columns of an honest row: at most one of the three
/// round kinds, `add1` set exactly on ADD and SKEW rows, the addition flags
/// boolean and without gaps, and a slice only where a point is read.
pub open spec fn honest_flags(r: MsmRow) -> bool {
    &&& is_bit(r.q_add.val())
    &&& is_bit(r.q_skew.val())
    &&& is_bit(r.q_double.val())
    &&& r.q_add.val() + r.q_skew.val() + r.q_double.val() <= 1
    &&& r.add1.val() == r.q_add.val() + r.q_skew.val()
    &&& is_bit(r.add2.val())
    &&& is_bit(r.add3.val())
    &&& is_bit(r.add4.val())
    &&& r.add2.val() == 1 ==> r.add1.val() == 1
    &&& r.add3.val() == 1 ==> r.add2.val() == 1
    &&& r.add4.val() == 1 ==> r.add3.val() == 1
    &&& r.add1.val() == 0 ==> r.slice1.val() == 0
    &&& r.add2.val() == 0 ==> r.slice2.val() == 0
    &&& r.add3.val() == 0 ==> r.slice3.val() == 0
    &&& r.add4.val() == 0 ==> r.slice4.val() == 0
}

/// The round, count and pc bookkeeping of an honest row and the next one.
/// Within an MSM the round advances by zero or one; when it advances, the next
/// row doubles, or after round 31 adds the skew; a double is followed by an
/// add; the count grows by the points added while the round stays, and
/// restarts at zero on a new round (past the first row); at the end of an MSM
/// the count restarts and the pc drops by the MSM's size; an ADD or SKEW row
/// followed by one of its kind reads its fourth point or the next row does not
/// read its first.
pub open spec fn honest_bookkeeping(r: MsmRow) -> bool {
    let mts = r.msm_transition_shift.val();
    let rd = fsub(r.round_shift.val(), r.round.val());
    let first = r.lagrange_first.val();
    &&& is_bit(first)
    &&& is_bit(mts)
    &&& is_bit(r.q_add_shift.val())
    &&& is_bit(r.q_skew_shift.val())
    &&& is_bit(r.q_double_shift.val())
    &&& mts == 0 ==> rd == 0 || rd == 1
    &&& mts == 0 && rd == 1 ==> (r.round.val() == 31 && r.q_skew_shift.val() == 1 && r.q_double_shift.val() == 0)
        || (r.round.val() != 31 && r.q_double_shift.val() == 1 && r.q_skew_shift.val() == 0)
    &&& r.q_double.val() == 1 ==> r.q_double_shift.val() == 0 && r.q_add_shift.val() == 1
    &&& mts == 0 && rd == 0 ==> r.count_shift.val() == (r.count.val() + r.add1.val() + r.add2.val()
        + r.add3.val() + r.add4.val()) % p()
    &&& first == 0 && mts == 0 && rd == 1 ==> r.count_shift.val() == 0
    &&& first == 0 && mts == 1 ==> r.count_shift.val() == 0 && r.pc.val() == (r.pc_shift.val() + r.msm_size.val())
        % p()
    &&& (r.q_add.val() == 1 && r.q_add_shift.val() == 1) || (r.q_skew.val() == 1 && r.q_skew_shift.val() == 1)
        ==> r.add4.val() == 1 || r.add1_shift.val() == 0
}

proof fn lemma_count_step(r: MsmRow)
    requires
        r.wf(),
        r.count_shift.val() == (r.count.val() + r.add1.val() + r.add2.val() + r.add3.val() + r.add4.val()) % p(),
    ensures
        fsub(fsub(fsub(fsub(fsub(r.count_shift.val(), r.count.val()), r.add1.val()), r.add2.val()), r.add3.val()),
            r.add4.val()) == 0,
{
    let cs = r.count_shift.val();
    let c = r.count.val();
    let a1 = r.add1.val();
    let a2 = r.add2.val();
    let a3 = r.add3.val();
    let a4 = r.add4.val();
    let t1 = fsub(cs, c);
    let t2 = fsub(t1, a1);
    let t3 = fsub(t2, a2);
    let t4 = fsub(t3, a3);
    let t5 = fsub(t4, a4);
    lemma_cong_ops(cs, c);
    lemma_cong_ops(t1, a1);
    lemma_cong_compat(t1, cs - c, a1, a1);
    lemma_cong_ops(t2, a2);
    lemma_cong_compat(t2, cs - c - a1, a2, a2);
    lemma_cong_ops(t3, a3);
    lemma_cong_compat(t3, cs - c - a1 - a2, a3, a3);
    lemma_cong_ops(t4, a4);
    lemma_cong_compat(t4, cs - c - a1 - a2 - a3, a4, a4);
    let sum = c + a1 + a2 + a3 + a4;
    vstd::arithmetic::div_mod::lemma_mod_twice(sum, p());
    lemma_cong_compat(cs, sum, sum, sum);
    assert(cs - c - a1 - a2 - a3 - a4 == cs - sum);
    lemma_p_gt_one();
    lemma_canonical_mod(0);
    lemma_cong_canonical(t5, 0);
}

/// The bookkeeping sub-identities of an honest row vanish.
proof fn lemma_bookkeeping_vanishes(r: MsmRow)
    requires
        r.wf(),
        honest_flags(r),
        honest_bookkeeping(r),
    ensures
        forall|i: int| 0 <= i < 23 ==> #[trigger] bookkeeping_residuals(r)[i] == 0,
{
    reveal(bookkeeping_residuals);
    lemma_p_gt_one();
    lemma_field_units(0);
    lemma_field_units(1);
    lemma_canonical_mod(31);
    lemma_canonical_mod(2);
    let mts = r.msm_transition_shift.val();
    let rd = fsub(r.round_shift.val(), r.round.val());
    let rt = fmul(rd, fsub(1, mts));
    let nf = fsub(1, r.lagrange_first.val());
    assert(fsub(1, 1) == 0 && fsub(1, 0) == 1);
    lemma_cong_ops(r.round_shift.val(), r.round.val());
    lemma_field_units(rd);
    if mts == 1 {
        assert(rt == 0);
    } else {
        assert(rt == rd);
    }
    assert(rt == 0 || rt == 1);
    lemma_field_units(r.round.val());
    lemma_field_units(r.count_shift.val());
    lemma_field_units(r.add1_shift.val());
    lemma_field_units(r.slice1.val());
    lemma_field_units(r.slice2.val());
    lemma_field_units(r.slice3.val());
    lemma_field_units(r.slice4.val());
    lemma_cong_ops(r.round.val(), 31);
    lemma_field_units(fsub(r.round.val(), 31));
    if mts == 0 && rd == 0 {
        lemma_count_step(r);
    }
    let step = fsub(fsub(fsub(fsub(fsub(r.count_shift.val(), r.count.val()), r.add1.val()), r.add2.val()),
        r.add3.val()), r.add4.val());
    lemma_cong_ops(fsub(fsub(fsub(fsub(r.count_shift.val(), r.count.val()), r.add1.val()), r.add2.val()),
        r.add3.val()), r.add4.val());
    lemma_field_units(step);
    lemma_cong_ops(r.msm_size.val(), r.pc_shift.val());
    let pc_step = fsub(fadd(r.msm_size.val(), r.pc_shift.val()), r.pc.val());
    lemma_cong_ops(fadd(r.msm_size.val(), r.pc_shift.val()), r.pc.val());
    lemma_field_units(pc_step);
    if r.lagrange_first.val() == 0 && mts == 1 {
        assert(r.msm_size.val() + r.pc_shift.val() == r.pc_shift.val() + r.msm_size.val());
        lemma_field_units(r.pc.val());
        assert(pc_step == 0);
    }
    let res = bookkeeping_residuals(r);
    assert(res[0] == 0 && res[1] == 0 && res[2] == 0 && res[3] == 0);
    assert(res[4] == 0);
    assert(res[5] == 0);
    assert(res[6] == 0);
    assert(res[7] == 0);
    assert(res[8] == 0);
    assert(res[9] == 0 && res[10] == 0);
    assert(res[11] == 0);
    assert(res[12] == 0);
    assert(res[13] == 0);
    assert(res[14] == 0);
    assert(res[15] == 0 && res[16] == 0 && res[17] == 0);
    assert(res[18] == 0);
    assert(res[19] == 0);
}

/// The point sub-identities of a row of no round kind vanish.
proof fn lemma_idle_row_points(r: MsmRow, ox: int, oy: int, inv7: int)
    requires
        r.wf(),
        r.q_add.val() == 0,
        r.q_skew.val() == 0,
        r.q_double.val() == 0,
        is_bit(r.add1.val()),
        is_bit(r.add2.val()),
        is_bit(r.add3.val()),
        is_bit(r.add4.val()),
    ensures
        forall|i: int| 0 <= i < 13 ==> #[trigger] point_residuals(r, ox, oy, inv7)[i] == 0,
{
    reveal(point_residuals);
    lemma_p_gt_one();
    lemma_field_units(0);
    let a = add_chain(r, ox, oy);
    let s = skew_chain(r, inv7);
    let d = double_chain(r);
    let sel = skew_selects(r, inv7);
    assert(fmul(0int, fsub(r.acc_x_shift.val(), a.0)) == 0);
    assert(fmul(0int, fsub(r.acc_y_shift.val(), a.1)) == 0);
    assert(fmul(0int, a.2) == 0);
    assert(fmul(0int, fsub(r.acc_x_shift.val(), s.0)) == 0);
    assert(fmul(0int, fsub(r.acc_y_shift.val(), s.1)) == 0);
    assert(fmul(0int, s.2) == 0);
    assert(fmul(0int, fsub(r.acc_x_shift.val(), d.0)) == 0);
    assert(fmul(0int, fsub(r.acc_y_shift.val(), d.1)) == 0);
    assert(fmul(0int, d.2) == 0);
    lemma_add_chain_canonical(r, ox, oy);
    lemma_skew_chain_canonical(r, inv7);
    lemma_cong_ops(r.slice1.val(), inv7);
    lemma_cong_ops(r.slice2.val(), inv7);
    lemma_cong_ops(r.slice3.val(), inv7);
    lemma_cong_ops(r.slice4.val(), inv7);
    lemma_collision_zero(s.3[0], a.3[0], r.collision_inverse1.val(), r.add1.val(), sel[0], 0, 0);
    lemma_collision_zero(s.3[1], a.3[1], r.collision_inverse2.val(), r.add2.val(), sel[1], 0, 0);
    lemma_collision_zero(s.3[2], a.3[2], r.collision_inverse3.val(), r.add3.val(), sel[2], 0, 0);
    lemma_collision_zero(s.3[3], a.3[3], r.collision_inverse4.val(), r.add4.val(), sel[3], 0, 0);
}

/// A row as an honest prover writes it: honest flags and bookkeeping, and the
/// point arithmetic of its round kind done as the wNAF algorithm does it.
pub open spec fn honest_row(r: MsmRow, ox: int, oy: int) -> bool {
    &&& honest_flags(r)
    &&& honest_bookkeeping(r)
    &&& r.q_add.val() == 1 ==> honest_add_points(r, ox, oy)
    &&& r.q_skew.val() == 1 ==> honest_skew_points(r)
    &&& r.q_double.val() == 1 ==> honest_double_points(r)
}

/// Completeness: on an honest row every sub-identity of the MSM relation is
/// zero, so `accumulate` adds exactly zero to every slot, whatever the
/// scaling factor.
pub proof fn lemma_honest_row_vanishes(r: MsmRow, ox: int, oy: int, inv7: int)
    requires
        r.wf(),
        0 <= ox < p(),
        0 <= oy < p(),
        is_inverse(7, inv7),
        honest_row(r, ox, oy),
    ensures
        forall|i: int| 0 <= i < MSM_NUM_SUBRELATIONS ==> #[trigger] msm_residuals(r, ox, oy, inv7)[i] == 0,
        forall|i: int, o: int, s: int|
            0 <= i < MSM_NUM_SUBRELATIONS && 0 <= o < p() ==> #[trigger] fadd(
                o,
                fmul(msm_residuals(r, ox, oy, inv7)[i], s),
            ) == o,
{
    crate::msm_relation::lemma_residuals_len(r, ox, oy, inv7);
    if r.q_add.val() == 1 {
        lemma_add_row_points(r, ox, oy, inv7);
    } else if r.q_skew.val() == 1 {
        lemma_skew_row_points(r, ox, oy, inv7);
    } else if r.q_double.val() == 1 {
        lemma_double_row_points(r, ox, oy, inv7);
    } else {
        lemma_idle_row_points(r, ox, oy, inv7);
    }
    lemma_bookkeeping_vanishes(r);
    let res = msm_residuals(r, ox, oy, inv7);
    assert forall|i: int| 0 <= i < MSM_NUM_SUBRELATIONS implies #[trigger] res[i] == 0 by {
        if i < 13 {
            assert(res[i] == point_residuals(r, ox, oy, inv7)[i]);
        } else {
            assert(res[i] == bookkeeping_residuals(r)[i - 13]);
        }
    }
    assert forall|i: int, o: int, s: int|
        0 <= i < MSM_NUM_SUBRELATIONS && 0 <= o < p() implies #[trigger] fadd(o, fmul(res[i], s)) == o by {
        assert(res[i] == 0);
        lemma_p_gt_one();
        lemma_canonical_mod(0);
        assert(fmul(0, s) == 0);
        lemma_field_units(o);
    }
}

} // verus!
