//! Unit-quaternion orientation.
//!
//! A `Rotator` stores a quaternion (x, y, z, w) in fixed point.  The
//! executable operations carry exact contracts over `qmul_fx`, the
//! Hamilton product with truncating scaling, and `qnorm_fx`, defensive
//! renormalization.  The rotation laws hold of the exact (unscaled)
//! integer model `qmul`, where `lemma_rotation_round_trip` shows that
//! conjugating by a quaternion and then by its conjugate returns a pure
//! vector scaled by the squared norm twice.

use crate::basetype::{Angle3D, Vector3D};
use crate::fixed::{
    bounded, fxmul, is_isqrt, isqrt, isqrt_spec, lemma_fxmul_fits, lemma_fxmul_zero,
    lemma_isqrt_exists, lemma_isqrt_unique, lemma_mul_bound, lemma_mul_comm, lemma_tdiv_exact,
    lemma_tdiv_mag, lemma_tdiv_neg, sc, tdiv, vlim, Fx, SCALE, TWO_PI_FX,
};
use crate::math::trig::{
    cmul_spec, cos_quadrant_spec, cos_sin, cos_sin_spec, lemma_cos_sin_spec_zero,
    sin_quadrant_spec,
};
use vstd::prelude::*;

verus! {

/// The Hamilton product of two quaternions (x, y, z, w), over exact
/// integers with no scaling.
pub open spec fn qmul(a: (int, int, int, int), b: (int, int, int, int)) -> (int, int, int, int) {
    (
        a.3 * b.0 + a.0 * b.3 + a.1 * b.2 - a.2 * b.1,
        a.3 * b.1 - a.0 * b.2 + a.1 * b.3 + a.2 * b.0,
        a.3 * b.2 + a.0 * b.1 - a.1 * b.0 + a.2 * b.3,
        a.3 * b.3 - a.0 * b.0 - a.1 * b.1 - a.2 * b.2,
    )
}

/// The conjugate: the vector part negated.
pub open spec fn qconj(a: (int, int, int, int)) -> (int, int, int, int) {
    (-a.0, -a.1, -a.2, a.3)
}

/// The squared norm.
pub open spec fn qnormsq(a: (int, int, int, int)) -> int {
    a.0 * a.0 + a.1 * a.1 + a.2 * a.2 + a.3 * a.3
}

/// Every component multiplied by `s`.
pub open spec fn qscale(s: int, a: (int, int, int, int)) -> (int, int, int, int) {
    (s * a.0, s * a.1, s * a.2, s * a.3)
}

/// Rotation of a pure quaternion by conjugation, in the exact model.
pub open spec fn qrot(q: (int, int, int, int), p: (int, int, int, int)) -> (int, int, int, int) {
    qmul(qmul(q, p), qconj(q))
}

proof fn lemma_dist_r_a(p1: int, p2: int, p3: int, p4: int, m: int)
    ensures
        (p1 + p2 + p3 - p4) * m == p1 * m + p2 * m + p3 * m - p4 * m,
{
    assert((p1 + p2 + p3 - p4) * m == p1 * m + p2 * m + p3 * m - p4 * m) by (nonlinear_arith);
}

proof fn lemma_dist_l_a(m: int, p1: int, p2: int, p3: int, p4: int)
    ensures
        m * (p1 + p2 + p3 - p4) == m * p1 + m * p2 + m * p3 - m * p4,
{
    assert(m * (p1 + p2 + p3 - p4) == m * p1 + m * p2 + m * p3 - m * p4) by (nonlinear_arith);
}

proof fn lemma_dist_r_b(p1: int, p2: int, p3: int, p4: int, m: int)
    ensures
        (p1 - p2 + p3 + p4) * m == p1 * m - p2 * m + p3 * m + p4 * m,
{
    assert((p1 - p2 + p3 + p4) * m == p1 * m - p2 * m + p3 * m + p4 * m) by (nonlinear_arith);
}

proof fn lemma_dist_l_b(m: int, p1: int, p2: int, p3: int, p4: int)
    ensures
        m * (p1 - p2 + p3 + p4) == m * p1 - m * p2 + m * p3 + m * p4,
{
    assert(m * (p1 - p2 + p3 + p4) == m * p1 - m * p2 + m * p3 + m * p4) by (nonlinear_arith);
}

proof fn lemma_dist_r_c(p1: int, p2: int, p3: int, p4: int, m: int)
    ensures
        (p1 + p2 - p3 + p4) * m == p1 * m + p2 * m - p3 * m + p4 * m,
{
    assert((p1 + p2 - p3 + p4) * m == p1 * m + p2 * m - p3 * m + p4 * m) by (nonlinear_arith);
}

proof fn lemma_dist_l_c(m: int, p1: int, p2: int, p3: int, p4: int)
    ensures
        m * (p1 + p2 - p3 + p4) == m * p1 + m * p2 - m * p3 + m * p4,
{
    assert(m * (p1 + p2 - p3 + p4) == m * p1 + m * p2 - m * p3 + m * p4) by (nonlinear_arith);
}

proof fn lemma_dist_r_d(p1: int, p2: int, p3: int, p4: int, m: int)
    ensures
        (p1 - p2 - p3 - p4) * m == p1 * m - p2 * m - p3 * m - p4 * m,
{
    assert((p1 - p2 - p3 - p4) * m == p1 * m - p2 * m - p3 * m - p4 * m) by (nonlinear_arith);
}

proof fn lemma_dist_l_d(m: int, p1: int, p2: int, p3: int, p4: int)
    ensures
        m * (p1 - p2 - p3 - p4) == m * p1 - m * p2 - m * p3 - m * p4,
{
    assert(m * (p1 - p2 - p3 - p4) == m * p1 - m * p2 - m * p3 - m * p4) by (nonlinear_arith);
}

proof fn lemma_mul_assoc3(x: int, y: int, z: int)
    ensures
        (x * y) * z == x * (y * z),
{
    assert((x * y) * z == x * (y * z)) by (nonlinear_arith);
}

/// The Hamilton product is associative.
pub proof fn lemma_qmul_assoc(
    a: (int, int, int, int),
    b: (int, int, int, int),
    c: (int, int, int, int),
)
    ensures
        qmul(qmul(a, b), c) == qmul(a, qmul(b, c)),
{
    lemma_dist_r_d(a.3 * b.3, a.0 * b.0, a.1 * b.1, a.2 * b.2, c.0);
    lemma_mul_assoc3(a.3, b.3, c.0);
    lemma_mul_assoc3(a.0, b.0, c.0);
    lemma_mul_assoc3(a.1, b.1, c.0);
    lemma_mul_assoc3(a.2, b.2, c.0);
    lemma_dist_r_a(a.3 * b.0, a.0 * b.3, a.1 * b.2, a.2 * b.1, c.3);
    lemma_mul_assoc3(a.3, b.0, c.3);
    lemma_mul_assoc3(a.0, b.3, c.3);
    lemma_mul_assoc3(a.1, b.2, c.3);
    lemma_mul_assoc3(a.2, b.1, c.3);
    lemma_dist_r_b(a.3 * b.1, a.0 * b.2, a.1 * b.3, a.2 * b.0, c.2);
    lemma_mul_assoc3(a.3, b.1, c.2);
    lemma_mul_assoc3(a.0, b.2, c.2);
    lemma_mul_assoc3(a.1, b.3, c.2);
    lemma_mul_assoc3(a.2, b.0, c.2);
    lemma_dist_r_c(a.3 * b.2, a.0 * b.1, a.1 * b.0, a.2 * b.3, c.1);
    lemma_mul_assoc3(a.3, b.2, c.1);
    lemma_mul_assoc3(a.0, b.1, c.1);
    lemma_mul_assoc3(a.1, b.0, c.1);
    lemma_mul_assoc3(a.2, b.3, c.1);
    lemma_dist_l_a(a.3, b.3 * c.0, b.0 * c.3, b.1 * c.2, b.2 * c.1);
    lemma_dist_l_d(a.0, b.3 * c.3, b.0 * c.0, b.1 * c.1, b.2 * c.2);
    lemma_dist_l_c(a.1, b.3 * c.2, b.0 * c.1, b.1 * c.0, b.2 * c.3);
    lemma_dist_l_b(a.2, b.3 * c.1, b.0 * c.2, b.1 * c.3, b.2 * c.0);
    assert(qmul(qmul(a, b), c).0 == qmul(a, qmul(b, c)).0);
    lemma_dist_r_d(a.3 * b.3, a.0 * b.0, a.1 * b.1, a.2 * b.2, c.1);
    lemma_mul_assoc3(a.3, b.3, c.1);
    lemma_mul_assoc3(a.0, b.0, c.1);
    lemma_mul_assoc3(a.1, b.1, c.1);
    lemma_mul_assoc3(a.2, b.2, c.1);
    lemma_dist_r_a(a.3 * b.0, a.0 * b.3, a.1 * b.2, a.2 * b.1, c.2);
    lemma_mul_assoc3(a.3, b.0, c.2);
    lemma_mul_assoc3(a.0, b.3, c.2);
    lemma_mul_assoc3(a.1, b.2, c.2);
    lemma_mul_assoc3(a.2, b.1, c.2);
    lemma_dist_r_b(a.3 * b.1, a.0 * b.2, a.1 * b.3, a.2 * b.0, c.3);
    lemma_mul_assoc3(a.3, b.1, c.3);
    lemma_mul_assoc3(a.0, b.2, c.3);
    lemma_mul_assoc3(a.1, b.3, c.3);
    lemma_mul_assoc3(a.2, b.0, c.3);
    lemma_dist_r_c(a.3 * b.2, a.0 * b.1, a.1 * b.0, a.2 * b.3, c.0);
    lemma_mul_assoc3(a.3, b.2, c.0);
    lemma_mul_assoc3(a.0, b.1, c.0);
    lemma_mul_assoc3(a.1, b.0, c.0);
    lemma_mul_assoc3(a.2, b.3, c.0);
    lemma_dist_l_b(a.3, b.3 * c.1, b.0 * c.2, b.1 * c.3, b.2 * c.0);
    lemma_dist_l_c(a.0, b.3 * c.2, b.0 * c.1, b.1 * c.0, b.2 * c.3);
    lemma_dist_l_d(a.1, b.3 * c.3, b.0 * c.0, b.1 * c.1, b.2 * c.2);
    lemma_dist_l_a(a.2, b.3 * c.0, b.0 * c.3, b.1 * c.2, b.2 * c.1);
    assert(qmul(qmul(a, b), c).1 == qmul(a, qmul(b, c)).1);
    lemma_dist_r_d(a.3 * b.3, a.0 * b.0, a.1 * b.1, a.2 * b.2, c.2);
    lemma_mul_assoc3(a.3, b.3, c.2);
    lemma_mul_assoc3(a.0, b.0, c.2);
    lemma_mul_assoc3(a.1, b.1, c.2);
    lemma_mul_assoc3(a.2, b.2, c.2);
    lemma_dist_r_a(a.3 * b.0, a.0 * b.3, a.1 * b.2, a.2 * b.1, c.1);
    lemma_mul_assoc3(a.3, b.0, c.1);
    lemma_mul_assoc3(a.0, b.3, c.1);
    lemma_mul_assoc3(a.1, b.2, c.1);
    lemma_mul_assoc3(a.2, b.1, c.1);
    lemma_dist_r_b(a.3 * b.1, a.0 * b.2, a.1 * b.3, a.2 * b.0, c.0);
    lemma_mul_assoc3(a.3, b.1, c.0);
    lemma_mul_assoc3(a.0, b.2, c.0);
    lemma_mul_assoc3(a.1, b.3, c.0);
    lemma_mul_assoc3(a.2, b.0, c.0);
    lemma_dist_r_c(a.3 * b.2, a.0 * b.1, a.1 * b.0, a.2 * b.3, c.3);
    lemma_mul_assoc3(a.3, b.2, c.3);
    lemma_mul_assoc3(a.0, b.1, c.3);
    lemma_mul_assoc3(a.1, b.0, c.3);
    lemma_mul_assoc3(a.2, b.3, c.3);
    lemma_dist_l_c(a.3, b.3 * c.2, b.0 * c.1, b.1 * c.0, b.2 * c.3);
    lemma_dist_l_b(a.0, b.3 * c.1, b.0 * c.2, b.1 * c.3, b.2 * c.0);
    lemma_dist_l_a(a.1, b.3 * c.0, b.0 * c.3, b.1 * c.2, b.2 * c.1);
    lemma_dist_l_d(a.2, b.3 * c.3, b.0 * c.0, b.1 * c.1, b.2 * c.2);
    assert(qmul(qmul(a, b), c).2 == qmul(a, qmul(b, c)).2);
    lemma_dist_r_d(a.3 * b.3, a.0 * b.0, a.1 * b.1, a.2 * b.2, c.3);
    lemma_mul_assoc3(a.3, b.3, c.3);
    lemma_mul_assoc3(a.0, b.0, c.3);
    lemma_mul_assoc3(a.1, b.1, c.3);
    lemma_mul_assoc3(a.2, b.2, c.3);
    lemma_dist_r_a(a.3 * b.0, a.0 * b.3, a.1 * b.2, a.2 * b.1, c.0);
    lemma_mul_assoc3(a.3, b.0, c.0);
    lemma_mul_assoc3(a.0, b.3, c.0);
    lemma_mul_assoc3(a.1, b.2, c.0);
    lemma_mul_assoc3(a.2, b.1, c.0);
    lemma_dist_r_b(a.3 * b.1, a.0 * b.2, a.1 * b.3, a.2 * b.0, c.1);
    lemma_mul_assoc3(a.3, b.1, c.1);
    lemma_mul_assoc3(a.0, b.2, c.1);
    lemma_mul_assoc3(a.1, b.3, c.1);
    lemma_mul_assoc3(a.2, b.0, c.1);
    lemma_dist_r_c(a.3 * b.2, a.0 * b.1, a.1 * b.0, a.2 * b.3, c.2);
    lemma_mul_assoc3(a.3, b.2, c.2);
    lemma_mul_assoc3(a.0, b.1, c.2);
    lemma_mul_assoc3(a.1, b.0, c.2);
    lemma_mul_assoc3(a.2, b.3, c.2);
    lemma_dist_l_d(a.3, b.3 * c.3, b.0 * c.0, b.1 * c.1, b.2 * c.2);
    lemma_dist_l_a(a.0, b.3 * c.0, b.0 * c.3, b.1 * c.2, b.2 * c.1);
    lemma_dist_l_b(a.1, b.3 * c.1, b.0 * c.2, b.1 * c.3, b.2 * c.0);
    lemma_dist_l_c(a.2, b.3 * c.2, b.0 * c.1, b.1 * c.0, b.2 * c.3);
    assert(qmul(qmul(a, b), c).3 == qmul(a, qmul(b, c)).3);
}

/// Multiplying the conjugate by the quaternion gives the squared norm as a
/// scalar quaternion.
pub proof fn lemma_qconj_mul(a: (int, int, int, int))
    ensures
        qmul(qconj(a), a) == (0int, 0int, 0int, qnormsq(a)),
{
    assert(qmul(qconj(a), a).0 == 0 && qmul(qconj(a), a).1 == 0 && qmul(qconj(a), a).2 == 0
        && qmul(qconj(a), a).3 == qnormsq(a)) by (nonlinear_arith);
}

/// A scalar quaternion multiplies component-wise, from either side.
pub proof fn lemma_qmul_scalar(s: int, a: (int, int, int, int))
    ensures
        qmul((0int, 0int, 0int, s), a) == qscale(s, a),
        qmul(a, (0int, 0int, 0int, s)) == qscale(s, a),
{
    assert(qmul((0int, 0int, 0int, s), a) == qscale(s, a) && qmul(a, (0int, 0int, 0int, s))
        == qscale(s, a)) by (nonlinear_arith);
}

/// Rotating by a quaternion and then by its conjugate returns a pure
/// vector quaternion scaled by the squared norm twice; for a quaternion of
/// norm one the vector is returned unchanged.  (Stated of the exact
/// integer model; the executable path adds truncating scaling.)
pub proof fn lemma_rotation_round_trip(q: (int, int, int, int), v: (int, int, int))
    ensures
        qrot(qconj(q), qrot(q, (v.0, v.1, v.2, 0))) == qscale(
            qnormsq(q) * qnormsq(q),
            (v.0, v.1, v.2, 0),
        ),
        qnormsq(q) == 1 ==> qrot(qconj(q), qrot(q, (v.0, v.1, v.2, 0))) == (v.0, v.1, v.2, 0int),
{
    let p = (v.0, v.1, v.2, 0int);
    let n = qnormsq(q);
    let u = qmul(q, p);
    let cq = qconj(q);
    assert(qconj(cq) == q);
    assert(qrot(q, p) == qmul(u, cq));
    assert(qrot(cq, qmul(u, cq)) == qmul(qmul(cq, qmul(u, cq)), q));
    lemma_qmul_assoc(cq, u, cq);
    assert(qmul(cq, qmul(u, cq)) == qmul(qmul(cq, u), cq));
    lemma_qmul_assoc(qmul(cq, u), cq, q);
    assert(qmul(qmul(qmul(cq, u), cq), q) == qmul(qmul(cq, u), qmul(cq, q)));
    lemma_qconj_mul(q);
    lemma_qmul_scalar(n, qmul(cq, u));
    assert(qmul(qmul(cq, u), (0int, 0int, 0int, n)) == qscale(n, qmul(cq, u)));
    lemma_qmul_assoc(cq, q, p);
    assert(qmul(cq, u) == qmul(qmul(cq, q), p));
    lemma_qmul_scalar(n, p);
    assert(qmul(cq, u) == qscale(n, p));
    assert(qscale(n, qscale(n, p)) == qscale(n * n, p)) by (nonlinear_arith)
        requires
            p.3 == 0,
    ;
    if n == 1 {
        assert(qscale(1int * 1int, p) == p);
    }
}

/// The Hamilton product with each component scaled back down once,
/// truncating: what the executable `multiply` computes.
pub open spec fn qmul_fx(a: (int, int, int, int), b: (int, int, int, int)) -> (
    int,
    int,
    int,
    int,
) {
    (
        tdiv(a.3 * b.0 + a.0 * b.3 + a.1 * b.2 - a.2 * b.1, sc()),
        tdiv(a.3 * b.1 - a.0 * b.2 + a.1 * b.3 + a.2 * b.0, sc()),
        tdiv(a.3 * b.2 + a.0 * b.1 - a.1 * b.0 + a.2 * b.3, sc()),
        tdiv(a.3 * b.3 - a.0 * b.0 - a.1 * b.1 - a.2 * b.2, sc()),
    )
}

/// Each component scaled up one unit and divided, truncating, by the
/// integer square root of the squared norm: what the executable
/// `normalize` computes.
pub open spec fn qnorm_fx(a: (int, int, int, int)) -> (int, int, int, int) {
    let m = isqrt_spec(qnormsq(a));
    (tdiv(a.0 * sc(), m), tdiv(a.1 * sc(), m), tdiv(a.2 * sc(), m), tdiv(a.3 * sc(), m))
}

/// Rotation of a vector as the executable `apply` computes it: the
/// quaternion is renormalized, the vector becomes a pure quaternion, and
/// two scaled Hamilton products conjugate it.
pub open spec fn qrot_fx(q: (int, int, int, int), v: (int, int, int)) -> (int, int, int, int) {
    let qn = qnorm_fx(q);
    qmul_fx(qmul_fx(qn, (v.0, v.1, v.2, 0)), qconj(qn))
}

/// Every component of the scaled Hamilton product of two bounded
/// quaternions is bounded: each of the four summed products stays below
/// `br * SCALE`, so each truncated quotient stays below `br`.  The
/// individual product bounds are exposed for overflow reasoning.
pub proof fn lemma_qmul_fx_bound(
    a: (int, int, int, int),
    b: (int, int, int, int),
    ba: int,
    bb: int,
    br: int,
)
    requires
        bounded(a.0, ba) && bounded(a.1, ba) && bounded(a.2, ba) && bounded(a.3, ba),
        bounded(b.0, bb) && bounded(b.1, bb) && bounded(b.2, bb) && bounded(b.3, bb),
        0 <= ba,
        0 <= bb,
        0 <= br,
        4 * (ba * bb) <= br * 65536,
    ensures
        bounded(qmul_fx(a, b).0, br) && bounded(qmul_fx(a, b).1, br),
        bounded(qmul_fx(a, b).2, br) && bounded(qmul_fx(a, b).3, br),
        bounded(a.0 * b.0, ba * bb),
        bounded(a.0 * b.1, ba * bb),
        bounded(a.0 * b.2, ba * bb),
        bounded(a.0 * b.3, ba * bb),
        bounded(a.1 * b.0, ba * bb),
        bounded(a.1 * b.1, ba * bb),
        bounded(a.1 * b.2, ba * bb),
        bounded(a.1 * b.3, ba * bb),
        bounded(a.2 * b.0, ba * bb),
        bounded(a.2 * b.1, ba * bb),
        bounded(a.2 * b.2, ba * bb),
        bounded(a.2 * b.3, ba * bb),
        bounded(a.3 * b.0, ba * bb),
        bounded(a.3 * b.1, ba * bb),
        bounded(a.3 * b.2, ba * bb),
        bounded(a.3 * b.3, ba * bb),
{
    lemma_mul_bound(a.0, b.0, ba, bb);
    lemma_mul_bound(a.0, b.1, ba, bb);
    lemma_mul_bound(a.0, b.2, ba, bb);
    lemma_mul_bound(a.0, b.3, ba, bb);
    lemma_mul_bound(a.1, b.0, ba, bb);
    lemma_mul_bound(a.1, b.1, ba, bb);
    lemma_mul_bound(a.1, b.2, ba, bb);
    lemma_mul_bound(a.1, b.3, ba, bb);
    lemma_mul_bound(a.2, b.0, ba, bb);
    lemma_mul_bound(a.2, b.1, ba, bb);
    lemma_mul_bound(a.2, b.2, ba, bb);
    lemma_mul_bound(a.2, b.3, ba, bb);
    lemma_mul_bound(a.3, b.0, ba, bb);
    lemma_mul_bound(a.3, b.1, ba, bb);
    lemma_mul_bound(a.3, b.2, ba, bb);
    lemma_mul_bound(a.3, b.3, ba, bb);
    lemma_tdiv_mag(a.3 * b.0 + a.0 * b.3 + a.1 * b.2 - a.2 * b.1, sc(), br);
    lemma_tdiv_mag(a.3 * b.1 - a.0 * b.2 + a.1 * b.3 + a.2 * b.0, sc(), br);
    lemma_tdiv_mag(a.3 * b.2 + a.0 * b.1 - a.1 * b.0 + a.2 * b.3, sc(), br);
    lemma_tdiv_mag(a.3 * b.3 - a.0 * b.0 - a.1 * b.1 - a.2 * b.2, sc(), br);
}

/// Renormalizing a quaternion keeps every component within one unit.
pub proof fn lemma_qnorm_fx_bound(a: (int, int, int, int), m: int)
    requires
        1 <= m,
        is_isqrt(m, qnormsq(a)),
    ensures
        bounded(qnorm_fx(a).0, sc()) && bounded(qnorm_fx(a).1, sc()),
        bounded(qnorm_fx(a).2, sc()) && bounded(qnorm_fx(a).3, sc()),
        qnorm_fx(a) == ({
            let mm = m;
            (tdiv(a.0 * sc(), mm), tdiv(a.1 * sc(), mm), tdiv(a.2 * sc(), mm), tdiv(
                a.3 * sc(),
                mm,
            ))
        }),
{
    lemma_isqrt_exists(qnormsq(a));
    lemma_isqrt_unique(m, isqrt_spec(qnormsq(a)), qnormsq(a));
    assert(-m <= a.0 <= m && -m <= a.1 <= m && -m <= a.2 <= m && -m <= a.3 <= m)
        by (nonlinear_arith)
        requires
            qnormsq(a) == a.0 * a.0 + a.1 * a.1 + a.2 * a.2 + a.3 * a.3,
            qnormsq(a) < (m + 1) * (m + 1),
            1 <= m,
    ;
    assert(bounded(a.0 * sc(), sc() * m) && bounded(a.1 * sc(), sc() * m) && bounded(
        a.2 * sc(),
        sc() * m,
    ) && bounded(a.3 * sc(), sc() * m)) by (nonlinear_arith)
        requires
            -m <= a.0 <= m && -m <= a.1 <= m && -m <= a.2 <= m && -m <= a.3 <= m,
    ;
    lemma_tdiv_mag(a.0 * sc(), m, sc());
    lemma_tdiv_mag(a.1 * sc(), m, sc());
    lemma_tdiv_mag(a.2 * sc(), m, sc());
    lemma_tdiv_mag(a.3 * sc(), m, sc());
}

/// Rotating by the fixed-point identity quaternion returns the vector
/// exactly, rounding included.
pub proof fn lemma_qrot_fx_identity(v: (int, int, int))
    ensures
        qrot_fx((0int, 0int, 0int, sc()), v) == (v.0, v.1, v.2, 0int),
{
    let q = (0int, 0int, 0int, sc());
    assert(qnormsq(q) == 65536 * 65536) by (nonlinear_arith)
        requires
            q == (0int, 0int, 0int, 65536int),
    ;
    assert(is_isqrt(65536int, 65536int * 65536int));
    lemma_isqrt_exists(qnormsq(q));
    lemma_isqrt_unique(isqrt_spec(qnormsq(q)), 65536int, qnormsq(q));
    lemma_tdiv_exact(65536int, 65536int);
    assert(tdiv(0 * sc(), 65536) == 0) by {
        lemma_tdiv_mag(0int, 65536int, 0int);
    }
    let qn = qnorm_fx(q);
    assert(qn == q);
    let p = (v.0, v.1, v.2, 0int);
    let t = qmul_fx(qn, p);
    lemma_mul_comm(sc(), p.0);
    lemma_mul_comm(sc(), p.1);
    lemma_mul_comm(sc(), p.2);
    lemma_tdiv_exact(p.0, sc());
    lemma_tdiv_exact(p.1, sc());
    lemma_tdiv_exact(p.2, sc());
    lemma_tdiv_exact(0int, sc());
    assert(t == p);
    lemma_mul_comm(p.0, sc());
    lemma_mul_comm(p.1, sc());
    lemma_mul_comm(p.2, sc());
    assert(qmul_fx(t, qconj(qn)) == p);
}

/// The quaternion the axis-angle constructor computes: the axis
/// normalized, scaled by the half-angle sine, with the half-angle cosine
/// as the scalar part.
pub open spec fn axis_angle_quat(axis: Vector3D, angle: int) -> (int, int, int, int) {
    let m = isqrt_spec(axis.sumsq());
    let cs = cos_sin_spec(tdiv(angle, 2));
    (
        fxmul(tdiv(axis.x@ * sc(), m), cs.1),
        fxmul(tdiv(axis.y@ * sc(), m), cs.1),
        fxmul(tdiv(axis.z@ * sc(), m), cs.1),
        cs.0,
    )
}

/// The all-zero quadruple, which is not an orientation, replaced by the
/// identity; the truncated half-angle formulas cannot produce it for
/// real inputs, but the guard keeps well-formedness unconditional.
pub open spec fn quat_or_identity(q: (int, int, int, int)) -> (int, int, int, int) {
    if q == (0int, 0int, 0int, 0int) {
        (0int, 0int, 0int, sc())
    } else {
        q
    }
}

/// The quaternion the Euler constructor computes, by the standard
/// half-angle product formulas: yaw, then pitch, then roll as intrinsic
/// rotations.
pub open spec fn euler_quat(roll: int, pitch: int, yaw: int) -> (int, int, int, int) {
    let r = cos_sin_spec(tdiv(roll, 2));
    let p = cos_sin_spec(tdiv(pitch, 2));
    let y = cos_sin_spec(tdiv(yaw, 2));
    (
        fxmul(fxmul(r.1, p.0), y.0) - fxmul(fxmul(r.0, p.1), y.1),
        fxmul(fxmul(r.0, p.1), y.0) + fxmul(fxmul(r.1, p.0), y.1),
        fxmul(fxmul(r.0, p.0), y.1) - fxmul(fxmul(r.1, p.1), y.0),
        fxmul(fxmul(r.0, p.0), y.0) + fxmul(fxmul(r.1, p.1), y.1),
    )
}

/// A scaled product with a negated factor negates the scaled product.
proof fn lemma_fxmul_neg(x: int, y: int)
    ensures
        fxmul(x, -y) == -fxmul(x, y),
{
    assert(x * (-y) == -(x * y)) by (nonlinear_arith);
    lemma_tdiv_neg(x * y, sc());
}

/// The computed cosine is even and the computed sine odd in the angle.
pub proof fn lemma_cos_sin_spec_neg(a: int)
    ensures
        cos_sin_spec(-a).0 == cos_sin_spec(a).0,
        cos_sin_spec(-a).1 == -cos_sin_spec(a).1,
{
    if a == 0 {
        lemma_tdiv_mag(0int, sc(), 0int);
        let r0 = 0int % (TWO_PI_FX as int);
        assert(r0 == 0);
        let x2 = cmul_spec(0, 0);
        assert(0int * 0int == 0) by (nonlinear_arith);
        assert(x2 == 0);
        let s0 = sin_quadrant_spec(r0);
        assert(s0 == 0);
        let c0 = cos_quadrant_spec(r0);
        let m = isqrt_spec(c0 * c0 + s0 * s0);
        if m >= 32768 {
            lemma_tdiv_mag(0int * sc(), m, 0int);
            assert(tdiv(s0 * sc(), m) == 0);
        }
        assert(cos_sin_spec(0).1 == 0);
    } else {
        assert(((-a) < 0) == !(a < 0));
        let aa = if a < 0 {
            -a
        } else {
            a
        };
        assert((if (-a) < 0 {
            -(-a)
        } else {
            -a
        }) == aa);
    }
}

/// The Euler constructor's quaternion at all-zero angles is exactly the
/// identity.
pub proof fn lemma_euler_zero_identity()
    ensures
        quat_or_identity(euler_quat(0, 0, 0)) == (0int, 0int, 0int, sc()),
{
    lemma_tdiv_mag(0int, 2int, 0int);
    lemma_cos_sin_spec_zero();
    lemma_fxmul_zero(sc());
    lemma_fxmul_zero(0);
    lemma_tdiv_exact(sc(), sc());
    assert(fxmul(sc(), sc()) == sc());
    assert(euler_quat(0, 0, 0) == (0int, 0int, 0int, sc()));
}

/// Opposite angles about one axis build conjugate orientations, so by
/// `lemma_rotation_round_trip` applying one after the other returns a
/// vector scaled by the squared norm twice — unchanged for unit norm.
/// (Stated of the constructors' exact quaternions; the executable
/// rotation adds truncating scaling.)
pub proof fn lemma_opposite_angle_conjugate(axis: Vector3D, angle: int)
    ensures
        quat_or_identity(axis_angle_quat(axis, -angle)) == qconj(
            quat_or_identity(axis_angle_quat(axis, angle)),
        ),
{
    lemma_tdiv_neg(angle, 2);
    lemma_cos_sin_spec_neg(tdiv(angle, 2));
    let m = isqrt_spec(axis.sumsq());
    lemma_fxmul_neg(tdiv(axis.x@ * sc(), m), cos_sin_spec(tdiv(angle, 2)).1);
    lemma_fxmul_neg(tdiv(axis.y@ * sc(), m), cos_sin_spec(tdiv(angle, 2)).1);
    lemma_fxmul_neg(tdiv(axis.z@ * sc(), m), cos_sin_spec(tdiv(angle, 2)).1);
}

/// An orientation: a quaternion kept near unit norm.
#[derive(Clone, Copy, PartialEq, Eq, Structural, Debug)]
pub struct Rotator {
    pub x: Fx,
    pub y: Fx,
    pub z: Fx,
    pub w: Fx,
}

impl Rotator {
    /// The four components as exact integers, in (x, y, z, w) order.
    pub open spec fn qv(&self) -> (int, int, int, int) {
        (self.x@, self.y@, self.z@, self.w@)
    }

    /// All components lie within `b` of zero.
    pub open spec fn is_bounded(&self, b: int) -> bool {
        bounded(self.x@, b) && bounded(self.y@, b) && bounded(self.z@, b) && bounded(self.w@, b)
    }

    /// The identity orientation in fixed point: (0, 0, 0, SCALE).
    pub open spec fn is_identity(&self) -> bool {
        self.x@ == 0 && self.y@ == 0 && self.z@ == 0 && self.w@ == sc()
    }

    /// An orientation usable by `apply`: components in range and a
    /// non-zero norm for the defensive renormalization.
    pub open spec fn is_wf(&self) -> bool {
        self.is_bounded(vlim()) && qnormsq(self.qv()) >= 1
    }

    /// Builds the unit quaternion for a rotation of `angle` radians about
    /// `axis`, via half-angle sine and cosine along the normalized axis.
    /// A zero axis is rejected; a zero angle gives exactly the identity.
    pub fn new(axis: Vector3D, angle: Fx) -> (r: Rotator)
        requires
            axis.is_bounded(vlim()),
            axis.sumsq() >= 1,
            bounded(angle@, vlim()),
        ensures
            r.qv() == quat_or_identity(axis_angle_quat(axis, angle@)),
            r.is_bounded(sc()),
            r.is_wf(),
            angle@ == 0 ==> r.is_identity(),
    {
        let n = axis.normalise();
        let half = Fx { raw: angle.raw / 2 };
        proof {
            lemma_tdiv_mag(angle@, 2, vlim());
        }
        let cs = cos_sin(half);
        let c = cs.0;
        let s = cs.1;
        proof {
            lemma_fxmul_fits(n.x@, s@);
            lemma_fxmul_fits(n.y@, s@);
            lemma_fxmul_fits(n.z@, s@);
            lemma_mul_bound(n.x@, s@, sc(), sc());
            lemma_mul_bound(n.y@, s@, sc(), sc());
            lemma_mul_bound(n.z@, s@, sc(), sc());
            lemma_tdiv_mag(n.x@ * s@, sc(), sc());
            lemma_tdiv_mag(n.y@ * s@, sc(), sc());
            lemma_tdiv_mag(n.z@ * s@, sc(), sc());
            if angle@ == 0 {
                assert(half@ == 0) by {
                    lemma_tdiv_mag(0int, 2int, 0int);
                }
            }
        }
        let x = n.x.mul(s);
        let y = n.y.mul(s);
        let z = n.z.mul(s);
        let w = c;
        proof {
            if angle@ == 0 {
                assert(n.x@ * s@ == 0 && n.y@ * s@ == 0 && n.z@ * s@ == 0) by (nonlinear_arith)
                    requires
                        s@ == 0,
                ;
                lemma_tdiv_mag(0int, sc(), 0int);
            }
        }
        guard_nonzero(x, y, z, w)
    }

    /// The orientation that undoes this one: the vector part negated.
    pub fn conjugate(&self) -> (r: Rotator)
        requires
            self.x@ > i64::MIN,
            self.y@ > i64::MIN,
            self.z@ > i64::MIN,
        ensures
            r.qv() == qconj(self.qv()),
    {
        Rotator { x: Fx { raw: -self.x.raw }, y: Fx { raw: -self.y.raw }, z: Fx { raw: -self.z.raw }, w: self.w }
    }

    /// Builds the unit quaternion for a (roll, pitch, yaw) triple via the
    /// standard half-angle product formulas; the all-zero triple gives
    /// exactly the identity.
    pub fn from_global(angle: Angle3D) -> (r: Rotator)
        requires
            angle.is_bounded(vlim()),
        ensures
            r.qv() == quat_or_identity(
                euler_quat(angle.roll@, angle.pitch@, angle.yaw@),
            ),
            r.is_bounded(2 * sc()),
            r.is_wf(),
            angle.is_zero() ==> r.is_identity(),
    {
        proof {
            lemma_tdiv_mag(angle.roll@, 2, vlim());
            lemma_tdiv_mag(angle.pitch@, 2, vlim());
            lemma_tdiv_mag(angle.yaw@, 2, vlim());
            if angle.is_zero() {
                lemma_tdiv_mag(0int, 2int, 0int);
            }
        }
        let csr = cos_sin(Fx { raw: angle.roll.get().raw / 2 });
        let csp = cos_sin(Fx { raw: angle.pitch.get().raw / 2 });
        let csy = cos_sin(Fx { raw: angle.yaw.get().raw / 2 });
        let (cr, sr) = (csr.0, csr.1);
        let (cp, sp) = (csp.0, csp.1);
        let (cy, sy) = (csy.0, csy.1);
        let x = triple_product(sr, cp, cy).sub(triple_product(cr, sp, sy));
        let y = triple_product(cr, sp, cy).add(triple_product(sr, cp, sy));
        let z = triple_product(cr, cp, sy).sub(triple_product(sr, sp, cy));
        let w = triple_product(cr, cp, cy).add(triple_product(sr, sp, sy));
        proof {
            if angle.is_zero() {
                lemma_tdiv_exact(65536int, 65536int);
                lemma_tdiv_mag(0int, sc(), 0int);
                assert(fxmul(sc(), sc()) == sc());
            }
        }
        guard_nonzero(x, y, z, w)
    }

    /// Divides every component by the quaternion's magnitude.
    pub fn normalize(&self) -> (r: Rotator)
        requires
            self.is_bounded(vlim()),
            qnormsq(self.qv()) >= 1,
        ensures
            r.qv() == qnorm_fx(self.qv()),
            r.is_bounded(sc()),
    {
        proof {
            lemma_mul_bound(self.x@, self.x@, vlim(), vlim());
            lemma_mul_bound(self.y@, self.y@, vlim(), vlim());
            lemma_mul_bound(self.z@, self.z@, vlim(), vlim());
            lemma_mul_bound(self.w@, self.w@, vlim(), vlim());
            assert(self.x@ * self.x@ >= 0 && self.y@ * self.y@ >= 0 && self.z@ * self.z@ >= 0
                && self.w@ * self.w@ >= 0) by (nonlinear_arith);
        }
        let sq: i128 = (self.x.raw as i128) * (self.x.raw as i128) + (self.y.raw as i128)
            * (self.y.raw as i128) + (self.z.raw as i128) * (self.z.raw as i128) + (
        self.w.raw as i128) * (self.w.raw as i128);
        let m: i64 = isqrt(sq);
        proof {
            assert(m as int >= 1) by (nonlinear_arith)
                requires
                    qnormsq(self.qv()) >= 1,
                    sq == qnormsq(self.qv()),
                    is_isqrt(m as int, sq as int),
            ;
            lemma_qnorm_fx_bound(self.qv(), m as int);
            lemma_norm_div_fits(self.x@, m as int);
            lemma_norm_div_fits(self.y@, m as int);
            lemma_norm_div_fits(self.z@, m as int);
            lemma_norm_div_fits(self.w@, m as int);
        }
        Rotator {
            x: Fx { raw: ((self.x.raw as i128) * (SCALE as i128) / (m as i128)) as i64 },
            y: Fx { raw: ((self.y.raw as i128) * (SCALE as i128) / (m as i128)) as i64 },
            z: Fx { raw: ((self.z.raw as i128) * (SCALE as i128) / (m as i128)) as i64 },
            w: Fx { raw: ((self.w.raw as i128) * (SCALE as i128) / (m as i128)) as i64 },
        }
    }

    /// Rotates a vector by quaternion conjugation: the quaternion is
    /// defensively renormalized, the vector becomes a pure quaternion and
    /// is multiplied on the left by the quaternion and on the right by its
    /// conjugate.  The identity orientation returns the vector unchanged.
    pub fn apply(&self, point: Vector3D) -> (r: Vector3D)
        requires
            self.is_wf(),
            point.is_bounded(0x100000000),
        ensures
            (r.x@, r.y@, r.z@) == ({
                let q = qrot_fx(self.qv(), (point.x@, point.y@, point.z@));
                (q.0, q.1, q.2)
            }),
            r.is_bounded(0x2000000000),
            point.is_bounded(0x4000000) ==> r.is_bounded(0x40000000),
            self.is_identity() ==> r.x@ == point.x@ && r.y@ == point.y@ && r.z@ == point.z@,
    {
        let q_norm = self.normalize();
        let p = Rotator { x: point.x, y: point.y, z: point.z, w: Fx { raw: 0 } };
        proof {
            lemma_qmul_fx_bound(q_norm.qv(), p.qv(), sc(), 0x100000000, 0x400000000);
            if point.is_bounded(0x4000000) {
                lemma_qmul_fx_bound(q_norm.qv(), p.qv(), sc(), 0x4000000, 0x10000000);
            }
        }
        let t = q_norm.multiply(&p);
        let q_conj = q_norm.conjugate();
        proof {
            lemma_qmul_fx_bound(t.qv(), q_conj.qv(), 0x400000000, sc(), 0x2000000000);
            if point.is_bounded(0x4000000) {
                lemma_qmul_fx_bound(t.qv(), q_conj.qv(), 0x10000000, sc(), 0x40000000);
            }
            if self.is_identity() {
                lemma_qrot_fx_identity((point.x@, point.y@, point.z@));
            }
        }
        let res = t.multiply(&q_conj);
        Vector3D { x: res.x, y: res.y, z: res.z }
    }

    /// Checks at run time that this orientation can be applied: the
    /// components are in range and the norm is not zero.  Lets callers
    /// re-establish `apply`'s precondition on composed rotations.
    pub fn well_formed(&self) -> (r: bool)
        ensures
            r == self.is_wf(),
    {
        let lim: i64 = 0x4000000000;
        if self.x.raw > lim || self.x.raw < -lim || self.y.raw > lim || self.y.raw < -lim
            || self.z.raw > lim || self.z.raw < -lim || self.w.raw > lim || self.w.raw < -lim {
            return false;
        }
        proof {
            lemma_mul_bound(self.x@, self.x@, vlim(), vlim());
            lemma_mul_bound(self.y@, self.y@, vlim(), vlim());
            lemma_mul_bound(self.z@, self.z@, vlim(), vlim());
            lemma_mul_bound(self.w@, self.w@, vlim(), vlim());
        }
        let sq: i128 = (self.x.raw as i128) * (self.x.raw as i128) + (self.y.raw as i128)
            * (self.y.raw as i128) + (self.z.raw as i128) * (self.z.raw as i128) + (
        self.w.raw as i128) * (self.w.raw as i128);
        sq >= 1
    }

    /// Checks at run time that every component lies within `bound`.
    pub fn within(&self, bound: i64) -> (r: bool)
        requires
            bound >= 0,
        ensures
            r == self.is_bounded(bound as int),
    {
        self.x.raw <= bound && self.x.raw >= -bound && self.y.raw <= bound && self.y.raw
            >= -bound && self.z.raw <= bound && self.z.raw >= -bound && self.w.raw <= bound
            && self.w.raw >= -bound
    }

    /// The Hamilton product: the only valid composition of two rotations.
    /// `a.multiply(&b)` is the orientation that applies `b` first and then
    /// `a`.
    pub fn multiply(&self, other: &Rotator) -> (r: Rotator)
        requires
            self.is_bounded(0x1000000000),
            other.is_bounded(0x1000000000),
        ensures
            r.qv() == qmul_fx(self.qv(), other.qv()),
    {
        proof {
            lemma_qmul_fx_bound(self.qv(), other.qv(), 0x1000000000, 0x1000000000, 0x400000000000000);
        }
        let sx: i128 = self.x.raw as i128;
        let sy: i128 = self.y.raw as i128;
        let sz: i128 = self.z.raw as i128;
        let sw: i128 = self.w.raw as i128;
        let ox: i128 = other.x.raw as i128;
        let oy: i128 = other.y.raw as i128;
        let oz: i128 = other.z.raw as i128;
        let ow: i128 = other.w.raw as i128;
        let sc128: i128 = SCALE as i128;
        Rotator {
            x: Fx { raw: ((sw * ox + sx * ow + sy * oz - sz * oy) / sc128) as i64 },
            y: Fx { raw: ((sw * oy - sx * oz + sy * ow + sz * ox) / sc128) as i64 },
            z: Fx { raw: ((sw * oz + sx * oy - sy * ox + sz * ow) / sc128) as i64 },
            w: Fx { raw: ((sw * ow - sx * ox - sy * oy - sz * oz) / sc128) as i64 },
        }
    }
}

impl Default for Rotator {
    /// The neutral orientation: the identity quaternion, which `apply`
    /// returns vectors through unchanged.
    fn default() -> (r: Rotator)
        ensures
            r.is_identity(),
            r.is_wf(),
    {
        proof {
            assert(qnormsq((0int, 0int, 0int, 65536int)) >= 1) by (nonlinear_arith);
        }
        Rotator { x: Fx { raw: 0 }, y: Fx { raw: 0 }, z: Fx { raw: 0 }, w: Fx { raw: SCALE } }
    }
}

/// One component of a renormalized quaternion fits in an `i64`.
proof fn lemma_norm_div_fits(x: int, m: int)
    requires
        bounded(x, vlim()),
        m >= 1,
    ensures
        i64::MIN <= tdiv(x * sc(), m) <= i64::MAX,
        bounded(x * sc(), 0x100000000000000),
{
    assert(bounded(x * sc(), 0x40000000000000 * m) && bounded(x * sc(), 0x100000000000000))
        by (nonlinear_arith)
        requires
            -0x4000000000 <= x <= 0x4000000000,
            m >= 1,
    ;
    lemma_tdiv_mag(x * sc(), m, 0x40000000000000);
}

/// The product of three factors within one unit, scaled back down after
/// each multiplication, stays within one unit.
fn triple_product(a: Fx, b: Fx, c: Fx) -> (r: Fx)
    requires
        bounded(a@, sc()),
        bounded(b@, sc()),
        bounded(c@, sc()),
    ensures
        r@ == fxmul(fxmul(a@, b@), c@),
        bounded(r@, sc()),
{
    proof {
        lemma_fxmul_fits(a@, b@);
        lemma_mul_bound(a@, b@, sc(), sc());
        lemma_tdiv_mag(a@ * b@, sc(), sc());
    }
    let ab = a.mul(b);
    proof {
        lemma_fxmul_fits(ab@, c@);
        lemma_mul_bound(ab@, c@, sc(), sc());
        lemma_tdiv_mag(ab@ * c@, sc(), sc());
    }
    ab.mul(c)
}

/// Replaces the all-zero quadruple, which is not an orientation, with the
/// identity; any other quadruple is returned as is.  The truncated
/// half-angle formulas cannot produce the all-zero quadruple for real
/// inputs, but the guard keeps the well-formedness unconditional.
fn guard_nonzero(x: Fx, y: Fx, z: Fx, w: Fx) -> (r: Rotator)
    requires
        bounded(x@, 2 * sc()),
        bounded(y@, 2 * sc()),
        bounded(z@, 2 * sc()),
        bounded(w@, 2 * sc()),
    ensures
        r.is_bounded(2 * sc()),
        r.is_wf(),
        !(x@ == 0 && y@ == 0 && z@ == 0 && w@ == 0) ==> r == (Rotator { x, y, z, w }),
        x@ == 0 && y@ == 0 && z@ == 0 && w@ == 0 ==> r.is_identity(),
{
    if x.raw == 0 && y.raw == 0 && z.raw == 0 && w.raw == 0 {
        proof {
            assert(qnormsq((0int, 0int, 0int, 65536int)) >= 1) by (nonlinear_arith);
        }
        Rotator { x: Fx { raw: 0 }, y: Fx { raw: 0 }, z: Fx { raw: 0 }, w: Fx { raw: SCALE } }
    } else {
        let r = Rotator { x, y, z, w };
        proof {
            assert(qnormsq(r.qv()) >= 1) by (nonlinear_arith)
                requires
                    !(r.x@ == 0 && r.y@ == 0 && r.z@ == 0 && r.w@ == 0),
                    qnormsq(r.qv()) == r.x@ * r.x@ + r.y@ * r.y@ + r.z@ * r.z@ + r.w@ * r.w@,
            ;
        }
        r
    }
}

} // verus!
