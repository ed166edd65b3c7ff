//! Fixed-point trigonometry.
//!
//! The circular functions cannot be stated exactly over the integers, so
//! their contracts give what downstream proofs rely on: results stay within
//! one unit, a computed cosine/sine pair is unit length within a stated
//! tolerance (the pair is renormalized through the same integer square root
//! used for vector magnitudes), and the values at zero are exact.

use crate::basetype::{lemma_normalised_sumsq, Coord};
use crate::fixed::{
    bounded, fxmul, is_isqrt, isqrt, isqrt_spec, lemma_fxmul_fits, lemma_isqrt_exists,
    lemma_isqrt_unique, lemma_mul_bound, lemma_tdiv, lemma_tdiv_exact, lemma_tdiv_mag, sc, tdiv,
    vlim, Fx, PI_FX, SCALE, TWO_PI_FX,
};
use vstd::prelude::*;

verus! {

/// Half of pi in raw fixed-point units (rounded up; `PI_FX` is odd).
pub const HALF_PI_FX: i64 = 102944;

/// A quarter of pi in raw fixed-point units.
pub const QUARTER_PI_FX: i64 = 51472;

/// Curvature correction coefficient for the arctangent approximation.
pub const ATAN_C_FX: i64 = 17895;

/// Cosine series coefficients: 1/2, 1/24, 1/720, 1/40320 in raw units.
pub const COS_C2: i64 = 32768;

pub const COS_C4: i64 = 2731;

pub const COS_C6: i64 = 91;

pub const COS_C8: i64 = 2;

/// Sine series coefficients: 1/6, 1/120, 1/5040 in raw units.
pub const SIN_C3: i64 = 10923;

pub const SIN_C5: i64 = 546;

pub const SIN_C7: i64 = 13;

/// The clamped fixed-point product that the series evaluations use.
pub open spec fn cmul_spec(a: int, b: int) -> int {
    let p = fxmul(a, b);
    if p > 4 * sc() {
        4 * sc()
    } else if p < -(4 * sc()) {
        -(4 * sc())
    } else {
        p
    }
}

/// The truncated cosine series on the first quadrant.
pub open spec fn cos_quadrant_spec(r2: int) -> int {
    let x2 = cmul_spec(r2, r2);
    sc() - cmul_spec(
        x2,
        COS_C2 as int - cmul_spec(
            x2,
            COS_C4 as int - cmul_spec(x2, COS_C6 as int - cmul_spec(x2, COS_C8 as int)),
        ),
    )
}

/// The truncated sine series on the first quadrant.
pub open spec fn sin_quadrant_spec(r2: int) -> int {
    let x2 = cmul_spec(r2, r2);
    cmul_spec(
        r2,
        sc() - cmul_spec(
            x2,
            SIN_C3 as int - cmul_spec(x2, SIN_C5 as int - cmul_spec(x2, SIN_C7 as int)),
        ),
    )
}

/// The cosine/sine pair `cos_sin` computes: quadrant reduction, the
/// truncated series, renormalization of the pair through the integer
/// square root, and the quadrant signs.
pub open spec fn cos_sin_spec(a: int) -> (int, int) {
    let aa = if a < 0 {
        -a
    } else {
        a
    };
    let r0 = aa % (TWO_PI_FX as int);
    let flip = r0 >= PI_FX;
    let r1 = if flip {
        r0 - PI_FX
    } else {
        r0
    };
    let cneg = 2 * r1 > PI_FX;
    let r2 = if cneg {
        PI_FX - r1
    } else {
        r1
    };
    let c0 = cos_quadrant_spec(r2);
    let s0 = sin_quadrant_spec(r2);
    let m = isqrt_spec(c0 * c0 + s0 * s0);
    let c1 = if m < 32768 {
        sc()
    } else {
        tdiv(c0 * sc(), m)
    };
    let s1 = if m < 32768 {
        0
    } else {
        tdiv(s0 * sc(), m)
    };
    let c2 = if flip != cneg {
        -c1
    } else {
        c1
    };
    let s2 = if flip != (a < 0) {
        -s1
    } else {
        s1
    };
    (c2, s2)
}

/// The arctangent `atan_unit` computes on the unit interval.
pub open spec fn atan_unit_spec(t: int) -> int {
    fxmul(t, QUARTER_PI_FX as int + fxmul(ATAN_C_FX as int, sc() - t))
}

/// The plane angle `atan2` computes: octant reduction around the
/// unit-interval arctangent.
pub open spec fn atan2_spec(y: int, x: int) -> int {
    if y == 0 && x == 0 {
        0
    } else {
        let ax = if x < 0 {
            -x
        } else {
            x
        };
        let ay = if y < 0 {
            -y
        } else {
            y
        };
        let angle1 = if ax >= ay {
            atan_unit_spec(tdiv(ay * sc(), ax))
        } else {
            HALF_PI_FX - atan_unit_spec(tdiv(ax * sc(), ay))
        };
        let angle2 = if x < 0 {
            PI_FX - angle1
        } else {
            angle1
        };
        if y < 0 {
            -angle2
        } else {
            angle2
        }
    }
}

/// The arccosine `acos` computes: the angle of the point whose cosine
/// leg is `t` and whose sine leg is the integer square root of what
/// remains of the unit square.
pub open spec fn acos_spec(t: int) -> int {
    atan2_spec(isqrt_spec(sc() * sc() - t * t), t)
}

/// Distance between two locations: the magnitude of their difference.
pub fn get_distance(point1: &Coord, point2: &Coord) -> (r: Fx)
    requires
        point1.is_bounded(vlim()),
        point2.is_bounded(vlim()),
    ensures
        ({
            let dx = point1.x@ - point2.x@;
            let dy = point1.y@ - point2.y@;
            let dz = point1.z@ - point2.z@;
            r@ == isqrt_spec(dx * dx + dy * dy + dz * dz) && r@ >= 0
        }),
{
    let dx: i128 = (point1.x.raw as i128) - (point2.x.raw as i128);
    let dy: i128 = (point1.y.raw as i128) - (point2.y.raw as i128);
    let dz: i128 = (point1.z.raw as i128) - (point2.z.raw as i128);
    proof {
        lemma_mul_bound(dx as int, dx as int, 2 * vlim(), 2 * vlim());
        lemma_mul_bound(dy as int, dy as int, 2 * vlim(), 2 * vlim());
        lemma_mul_bound(dz as int, dz as int, 2 * vlim(), 2 * vlim());
        assert(dx * dx >= 0 && dy * dy >= 0 && dz * dz >= 0) by (nonlinear_arith);
    }
    let s: i128 = dx * dx + dy * dy + dz * dz;
    let m: i64 = isqrt(s);
    Fx { raw: m }
}

/// A fixed-point product clamped to four whole units, which the series
/// evaluations below never exceed; the clamp keeps every intermediate
/// trivially in range.
fn cmul(a: Fx, b: Fx) -> (r: Fx)
    requires
        bounded(a@, 0x40000000),
        bounded(b@, 0x40000000),
    ensures
        r@ == cmul_spec(a@, b@),
        bounded(r@, 4 * sc()),
        bounded(fxmul(a@, b@), 4 * sc()) ==> r@ == fxmul(a@, b@),
{
    proof {
        lemma_fxmul_fits(a@, b@);
    }
    let p = a.mul(b);
    if p.raw > 4 * SCALE {
        Fx { raw: 4 * SCALE }
    } else if p.raw < -4 * SCALE {
        Fx { raw: -4 * SCALE }
    } else {
        p
    }
}

/// Cosine and sine of an angle in the first quadrant, by truncated series.
/// At zero the pair is exactly (one, zero); `cos_sin` restores unit
/// length afterwards.
#[verifier::rlimit(30)]
fn cos_sin_quadrant(r2: i64) -> (r: (Fx, Fx))
    requires
        0 <= r2 <= HALF_PI_FX,
    ensures
        r.0@ == cos_quadrant_spec(r2 as int),
        r.1@ == sin_quadrant_spec(r2 as int),
        bounded(r.0@, 5 * sc()),
        bounded(r.1@, 5 * sc()),
        r2 == 0 ==> r.0@ == sc() && r.1@ == 0,
{
    let xf = Fx { raw: r2 };
    let x2 = cmul(xf, xf);
    let kc3 = Fx { raw: COS_C6 }.sub(cmul(x2, Fx { raw: COS_C8 }));
    let kc2 = Fx { raw: COS_C4 }.sub(cmul(x2, kc3));
    let kc1 = Fx { raw: COS_C2 }.sub(cmul(x2, kc2));
    let c0 = Fx { raw: SCALE }.sub(cmul(x2, kc1));
    let ks3 = Fx { raw: SIN_C5 }.sub(cmul(x2, Fx { raw: SIN_C7 }));
    let ks2 = Fx { raw: SIN_C3 }.sub(cmul(x2, ks3));
    let ks1 = Fx { raw: SCALE }.sub(cmul(x2, ks2));
    let s0 = cmul(xf, ks1);
    proof {
        if r2 == 0 {
            lemma_tdiv_mag(0, sc(), 0);
            assert(xf@ * xf@ == 0) by (nonlinear_arith)
                requires
                    xf@ == 0,
            ;
            assert(x2@ == 0);
            assert(x2@ * kc1@ == 0) by (nonlinear_arith)
                requires
                    x2@ == 0,
            ;
            assert(fxmul(x2@, kc1@) == 0);
            assert(c0@ == sc());
        }
    }
    (c0, s0)
}

/// Cosine and sine of an angle, as a pair.
///
/// The pair is computed by quadrant reduction and truncated series, then
/// scaled back to unit length, so its squared magnitude is one squared
/// unit within the stated tolerance; each component stays within one unit,
/// and the angle zero gives exactly (one, zero).
pub fn cos_sin(a: Fx) -> (r: (Fx, Fx))
    requires
        bounded(a@, vlim()),
    ensures
        (r.0@, r.1@) == cos_sin_spec(a@),
        bounded(r.0@, sc()),
        bounded(r.1@, sc()),
        r.0@ * r.0@ + r.1@ * r.1@ >= sc() * sc() - 6 * sc(),
        r.0@ * r.0@ + r.1@ * r.1@ <= sc() * sc() + 10 * sc() + 3,
        a@ == 0 ==> r.0@ == sc() && r.1@ == 0,
{
    let neg: bool = a.raw < 0;
    let aa: i64 = if neg {
        -a.raw
    } else {
        a.raw
    };
    let r0: i64 = aa % TWO_PI_FX;
    let flip: bool = r0 >= PI_FX;
    let r1: i64 = if flip {
        r0 - PI_FX
    } else {
        r0
    };
    let cneg: bool = 2 * r1 > PI_FX;
    let r2: i64 = if cneg {
        PI_FX - r1
    } else {
        r1
    };
    let cs = cos_sin_quadrant(r2);
    let c0 = cs.0;
    let s0 = cs.1;
    proof {
        assert(0 <= c0@ * c0@ <= 0x2000000000 && 0 <= s0@ * s0@ <= 0x2000000000)
            by (nonlinear_arith)
            requires
                -5 * 65536 <= c0@ <= 5 * 65536,
                -5 * 65536 <= s0@ <= 5 * 65536,
        ;
    }
    let sq: i128 = (c0.raw as i128) * (c0.raw as i128) + (s0.raw as i128) * (s0.raw as i128);
    let m: i64 = isqrt(sq);
    let (c1, s1) = if m < 32768 {
        (Fx { raw: SCALE }, Fx { raw: 0 })
    } else {
        proof {
            lemma_fxdiv_div_fits(c0@, m as int);
            lemma_fxdiv_div_fits(s0@, m as int);
        }
        let cd = Fx { raw: ((c0.raw as i128) * (SCALE as i128) / (m as i128)) as i64 };
        let sd = Fx { raw: ((s0.raw as i128) * (SCALE as i128) / (m as i128)) as i64 };
        proof {
            lemma_normalised_sumsq(c0@, s0@, 0, m as int, cd@, sd@, 0);
            if c0@ == sc() && s0@ == 0 {
                assert(sq == 65536 * 65536) by (nonlinear_arith)
                    requires
                        sq == c0@ * c0@ + s0@ * s0@,
                        c0@ == 65536,
                        s0@ == 0,
                ;
                assert(is_isqrt(65536int, 65536int * 65536int));
                lemma_isqrt_unique(m as int, 65536int, sq as int);
                lemma_tdiv_exact(65536int, 65536int);
            }
        }
        (cd, sd)
    };
    proof {
        assert(sc() * sc() - 6 * sc() <= sc() * sc() <= sc() * sc() + 10 * sc() + 3);
    }
    let c2 = if flip != cneg {
        Fx { raw: -c1.raw }
    } else {
        c1
    };
    let s2 = if flip != neg {
        Fx { raw: -s1.raw }
    } else {
        s1
    };
    proof {
        assert(c2@ * c2@ == c1@ * c1@ && s2@ * s2@ == s1@ * s1@) by (nonlinear_arith)
            requires
                c2@ == c1@ || c2@ == -c1@,
                s2@ == s1@ || s2@ == -s1@,
        ;
    }
    (c2, s2)
}

/// The computed pair at angle zero is exactly (one, zero).
pub proof fn lemma_cos_sin_spec_zero()
    ensures
        cos_sin_spec(0) == (sc(), 0int),
{
    lemma_tdiv_mag(0int, sc(), 0int);
    assert(0int % (TWO_PI_FX as int) == 0);
    assert(0int * 0int == 0) by (nonlinear_arith);
    assert(cmul_spec(0, 0) == 0);
    let c0 = cos_quadrant_spec(0);
    let s0 = sin_quadrant_spec(0);
    assert(c0 == sc() && s0 == 0);
    assert(c0 * c0 + s0 * s0 == 65536 * 65536) by (nonlinear_arith)
        requires
            c0 == sc(),
            s0 == 0,
            sc() == 65536,
    ;
    assert(is_isqrt(65536int, 65536int * 65536int));
    lemma_isqrt_exists(c0 * c0 + s0 * s0);
    lemma_isqrt_unique(isqrt_spec(c0 * c0 + s0 * s0), 65536int, c0 * c0 + s0 * s0);
    lemma_tdiv_exact(65536int, 65536int);
}

/// The computed plane angle of a point on the positive X axis is zero.
pub proof fn lemma_atan2_spec_zero_pos(x: int)
    requires
        x > 0,
    ensures
        atan2_spec(0, x) == 0,
{
    assert(0int * sc() == 0) by (nonlinear_arith);
    lemma_tdiv_mag(0int, x, 0int);
    let slope = QUARTER_PI_FX as int + fxmul(ATAN_C_FX as int, sc() - 0);
    assert(0int * slope == 0) by (nonlinear_arith);
    lemma_tdiv_mag(0int, sc(), 0int);
    assert(atan_unit_spec(0) == 0);
}

/// The scaled division of one normalization component fits in an `i64`.
proof fn lemma_fxdiv_div_fits(x: int, m: int)
    requires
        bounded(x, 5 * sc()),
        m >= 1,
    ensures
        i64::MIN <= tdiv(x * sc(), m) <= i64::MAX,
        -0x100000000000 * m <= x * sc() <= 0x100000000000 * m,
{
    assert(-0x100000000000 * m <= x * sc() <= 0x100000000000 * m) by (nonlinear_arith)
        requires
            -5 * 65536 <= x <= 5 * 65536,
            m >= 1,
    ;
    lemma_tdiv_mag(x * sc(), m, 0x100000000000);
}

/// Arctangent of `t / SCALE` for `t` in the unit interval, by a quarter-pi
/// slope with a quadratic correction.  Exactly zero at zero; always within
/// the first half-quadrant and a small overshoot.
fn atan_unit(t: Fx) -> (r: Fx)
    requires
        0 <= t@ <= sc(),
    ensures
        r@ == atan_unit_spec(t@),
        0 <= r@ <= QUARTER_PI_FX + ATAN_C_FX,
        t@ == 0 ==> r@ == 0,
{
    let rest = Fx { raw: SCALE - t.raw };
    proof {
        lemma_fxmul_fits(ATAN_C_FX as int, rest@);
        lemma_mul_bound(ATAN_C_FX as int, rest@, ATAN_C_FX as int, sc());
        lemma_tdiv_mag(ATAN_C_FX as int * rest@, sc(), ATAN_C_FX as int);
        assert(ATAN_C_FX as int * rest@ >= 0) by (nonlinear_arith)
            requires
                rest@ >= 0,
        ;
        lemma_tdiv(ATAN_C_FX as int * rest@, sc());
    }
    let bend = Fx { raw: ATAN_C_FX }.mul(rest);
    let slope = Fx { raw: QUARTER_PI_FX }.add(bend);
    proof {
        lemma_fxmul_fits(t@, slope@);
        lemma_mul_bound(t@, slope@, sc(), QUARTER_PI_FX as int + ATAN_C_FX as int);
        lemma_tdiv_mag(t@ * slope@, sc(), QUARTER_PI_FX as int + ATAN_C_FX as int);
        assert(t@ * slope@ >= 0) by (nonlinear_arith)
            requires
                t@ >= 0,
                slope@ >= 0,
        ;
        lemma_tdiv(t@ * slope@, sc());
        if t@ == 0 {
            assert(t@ * slope@ == 0) by (nonlinear_arith)
                requires
                    t@ == 0,
            ;
            lemma_tdiv_mag(t@ * slope@, sc(), 0);
        }
    }
    t.mul(slope)
}

/// The angle of the point `(x, y)` from the positive X axis, in radians
/// within [-pi, pi].  Zero when the point lies on the positive X axis
/// (and, by convention, at the origin); the sign follows `y`.
pub fn atan2(y: Fx, x: Fx) -> (r: Fx)
    requires
        bounded(y@, vlim()),
        bounded(x@, vlim()),
    ensures
        r@ == atan2_spec(y@, x@),
        bounded(r@, PI_FX as int),
        y@ >= 0 ==> 0 <= r@ <= PI_FX as int,
        y@ < 0 ==> -(PI_FX as int) <= r@ <= 0,
        y@ == 0 && x@ > 0 ==> r@ == 0,
        y@ == 0 && x@ < 0 ==> r@ == PI_FX as int,
        y@ == 0 && x@ == 0 ==> r@ == 0,
{
    if y.raw == 0 && x.raw == 0 {
        return Fx { raw: 0 };
    }
    let ax: i64 = if x.raw < 0 {
        -x.raw
    } else {
        x.raw
    };
    let ay: i64 = if y.raw < 0 {
        -y.raw
    } else {
        y.raw
    };
    let angle1: Fx = if ax >= ay {
        proof {
            lemma_quot_unit(ay as int, ax as int);
        }
        let t = Fx { raw: (((ay as i128) * (SCALE as i128) / (ax as i128)) as i64) };
        atan_unit(t)
    } else {
        proof {
            lemma_quot_unit(ax as int, ay as int);
        }
        let t = Fx { raw: (((ax as i128) * (SCALE as i128) / (ay as i128)) as i64) };
        let base = atan_unit(t);
        Fx { raw: HALF_PI_FX - base.raw }
    };
    let angle2: Fx = if x.raw < 0 {
        Fx { raw: PI_FX - angle1.raw }
    } else {
        angle1
    };
    if y.raw < 0 {
        Fx { raw: -angle2.raw }
    } else {
        angle2
    }
}

/// Dividing the smaller leg by the larger gives a quotient within the unit
/// interval.
proof fn lemma_quot_unit(num: int, den: int)
    requires
        0 <= num <= den,
        1 <= den,
    ensures
        0 <= tdiv(num * sc(), den) <= sc(),
        i64::MIN <= tdiv(num * sc(), den) <= i64::MAX,
        num == 0 ==> tdiv(num * sc(), den) == 0,
        0 <= num * sc() <= 65536 * den,
{
    assert(0 <= num * sc() <= sc() * den) by (nonlinear_arith)
        requires
            0 <= num <= den,
    ;
    lemma_tdiv_mag(num * sc(), den, sc());
    lemma_tdiv(num * sc(), den);
    if num == 0 {
        lemma_tdiv_mag(num * sc(), den, 0);
    }
}

/// Arccosine of `t / SCALE`, in radians within [0, pi]; exactly zero at
/// one and exactly pi at minus one.
pub fn acos(t: Fx) -> (r: Fx)
    requires
        bounded(t@, sc()),
    ensures
        r@ == acos_spec(t@),
        0 <= r@ <= PI_FX as int,
        t@ == sc() ==> r@ == 0,
        t@ == -sc() ==> r@ == PI_FX as int,
{
    proof {
        lemma_mul_bound(t@, t@, sc(), sc());
        assert(t@ * t@ >= 0) by (nonlinear_arith);
    }
    let u: i128 = (SCALE as i128) * (SCALE as i128) - (t.raw as i128) * (t.raw as i128);
    proof {
        assert(u >= 0) by (nonlinear_arith)
            requires
                -65536 <= t.raw as int <= 65536,
                u == 65536 * 65536 - (t.raw as int) * (t.raw as int),
        ;
    }
    let q: i64 = isqrt(u);
    proof {
        assert(q as int <= sc()) by (nonlinear_arith)
            requires
                (q as int) * (q as int) <= u as int,
                u <= 65536 * 65536,
                q >= 0,
        ;
        if t@ == sc() || t@ == -sc() {
            assert(u == 0) by (nonlinear_arith)
                requires
                    t@ == 65536 || t@ == -65536,
                    u == 65536 * 65536 - t@ * t@,
            ;
            assert(is_isqrt(0int, 0int));
            lemma_isqrt_unique(q as int, 0int, 0int);
        }
    }
    atan2(Fx { raw: q }, t)
}

} // verus!
