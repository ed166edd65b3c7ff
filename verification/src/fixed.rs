//! Fixed-point scalar arithmetic.
//!
//! A scalar is an `i64` holding the real value times `SCALE`.  Every
//! operation has an exact contract phrased with `tdiv`, truncated division
//! (rounding toward zero), which is what the executable code computes.
//! The integer square root used for magnitudes is specified exactly by
//! `is_isqrt`.

use vstd::arithmetic::div_mod::{
    lemma_div_is_ordered, lemma_div_multiples_vanish, lemma_div_pos_is_pos,
    lemma_fundamental_div_mod, lemma_remainder_lower, lemma_remainder_upper,
};
use vstd::prelude::*;

verus! {

/// Number of raw units per whole unit: scalars hold value * SCALE.
pub const SCALE: i64 = 65536;

/// `SCALE` as a spec-level integer.
pub open spec fn sc() -> int {
    SCALE as int
}

/// Pi in raw fixed-point units.
pub const PI_FX: i64 = 205887;

/// A full turn in raw fixed-point units, kept as exactly twice `PI_FX` so
/// that half-turn symmetries are exact.
pub const TWO_PI_FX: i64 = 411774;

/// Degrees per radian in raw fixed-point units.
pub const DEG_PER_RAD_FX: i64 = 3754936;

/// Raw component magnitudes the geometric operations accept; products of two
/// such values scaled back down always fit in an `i64`.
pub open spec fn vlim() -> int {
    0x4000000000
}

/// `x` lies within `b` of zero.
pub open spec fn bounded(x: int, b: int) -> bool {
    -b <= x <= b
}

/// Truncated division (rounding toward zero) by a positive divisor.
pub open spec fn tdiv(a: int, b: int) -> int {
    if a >= 0 {
        a / b
    } else {
        -((-a) / b)
    }
}

/// Truncated division by any non-zero divisor.
pub open spec fn tdivz(a: int, b: int) -> int {
    if b >= 0 {
        tdiv(a, b)
    } else {
        tdiv(-a, -b)
    }
}

/// Raw value of the product of two scalars.
pub open spec fn fxmul(a: int, b: int) -> int {
    tdiv(a * b, sc())
}

/// Raw value of the quotient of two scalars.
pub open spec fn fxdiv(a: int, b: int) -> int {
    tdivz(a * sc(), b)
}

/// `r` is the integer square root of `n`: the largest `r` with `r * r <= n`.
pub open spec fn is_isqrt(r: int, n: int) -> bool {
    &&& 0 <= r
    &&& r * r <= n
    &&& n < (r + 1) * (r + 1)
}

/// The integer square root as a spec-level function.
pub open spec fn isqrt_spec(n: int) -> int {
    choose|r: int| is_isqrt(r, n)
}

/// Characterization of truncated division: the remainder `a - b * tdiv(a, b)`
/// has the sign of `a` and magnitude below `b`.
pub proof fn lemma_tdiv(a: int, b: int)
    requires
        b > 0,
    ensures
        a >= 0 ==> tdiv(a, b) >= 0 && 0 <= a - b * tdiv(a, b) < b,
        a <= 0 ==> tdiv(a, b) <= 0 && -b < a - b * tdiv(a, b) <= 0,
{
    if a >= 0 {
        lemma_fundamental_div_mod(a, b);
        lemma_remainder_upper(a, b);
        lemma_remainder_lower(a, b);
        lemma_div_pos_is_pos(a, b);
        assert(a - b * (a / b) == a - (a / b) * b) by (nonlinear_arith);
    } else {
        lemma_fundamental_div_mod(-a, b);
        lemma_remainder_upper(-a, b);
        lemma_remainder_lower(-a, b);
        lemma_div_pos_is_pos(-a, b);
        let q = (-a) / b;
        assert((-a) - b * q == (-a) - q * b) by (nonlinear_arith);
        assert(a - b * (-q) == -((-a) - b * q)) by (nonlinear_arith);
    }
}

/// Dividing an exact multiple of `b` recovers the factor.
pub proof fn lemma_tdiv_exact(k: int, b: int)
    requires
        b > 0,
    ensures
        tdiv(k * b, b) == k,
{
    if k >= 0 {
        lemma_div_multiples_vanish(k, b);
        assert(k * b == b * k);
        assert(k * b >= 0) by (nonlinear_arith)
            requires
                k >= 0,
                b > 0,
        ;
    } else {
        lemma_div_multiples_vanish(-k, b);
        assert(-(k * b) == b * (-k)) by (nonlinear_arith);
        assert(k * b <= 0) by (nonlinear_arith)
            requires
                k < 0,
                b > 0,
        ;
    }
}

/// Truncated division of a negated dividend negates the quotient.
pub proof fn lemma_tdiv_neg(a: int, b: int)
    requires
        b > 0,
    ensures
        tdiv(-a, b) == -tdiv(a, b),
{
}

/// A magnitude bound on the dividend gives a magnitude bound on the quotient.
pub proof fn lemma_tdiv_mag(a: int, b: int, c: int)
    requires
        b > 0,
        c >= 0,
        -(c * b) <= a <= c * b,
    ensures
        -c <= tdiv(a, b) <= c,
{
    lemma_tdiv_exact(c, b);
    if a >= 0 {
        lemma_div_is_ordered(a, c * b, b);
    } else {
        lemma_div_is_ordered(-a, c * b, b);
    }
}

/// A scaled product with a zero factor is zero.
pub proof fn lemma_fxmul_zero(k: int)
    ensures
        fxmul(0, k) == 0,
        fxmul(k, 0) == 0,
{
    assert(0 * k == 0 && k * 0 == 0) by (nonlinear_arith);
    lemma_tdiv_mag(0, sc(), 0);
}

/// Multiplication commutes (not always applied automatically to opaque
/// product terms).
pub proof fn lemma_mul_comm(x: int, y: int)
    ensures
        x * y == y * x,
{
    assert(x * y == y * x) by (nonlinear_arith);
}

/// Magnitude bounds on two factors give a magnitude bound on their product.
pub proof fn lemma_mul_bound(a: int, b: int, c: int, d: int)
    requires
        bounded(a, c),
        bounded(b, d),
        c >= 0,
        d >= 0,
    ensures
        bounded(a * b, c * d),
{
    assert(-(c * d) <= a * b <= c * d) by (nonlinear_arith)
        requires
            -c <= a <= c,
            -d <= b <= d,
            c >= 0,
            d >= 0,
    ;
}

/// A scaled product of two in-range scalars fits comfortably in an `i64`.
pub proof fn lemma_fxmul_fits(a: int, b: int)
    requires
        bounded(a, vlim()),
        bounded(b, vlim()),
    ensures
        bounded(fxmul(a, b), 0x1000000000000000),
        i64::MIN <= fxmul(a, b) <= i64::MAX,
{
    lemma_mul_bound(a, b, vlim(), vlim());
    lemma_tdiv_mag(a * b, sc(), 0x1000000000000000);
}

/// A scaled quotient of an in-range scalar by any non-zero scalar fits in
/// an `i64`.
pub proof fn lemma_fxdiv_fits(a: int, b: int)
    requires
        bounded(a, vlim()),
        b != 0,
    ensures
        bounded(fxdiv(a, b), 0x40000000000000),
        i64::MIN <= fxdiv(a, b) <= i64::MAX,
{
    let p = a * sc();
    assert(bounded(p, 0x40000000000000)) by (nonlinear_arith)
        requires
            -0x4000000000 <= a <= 0x4000000000,
            p == a * 65536,
    ;
    if b > 0 {
        assert(0x40000000000000 <= 0x40000000000000 * b) by (nonlinear_arith)
            requires
                b >= 1,
        ;
        lemma_tdiv_mag(p, b, 0x40000000000000);
    } else {
        assert(0x40000000000000 <= 0x40000000000000 * (-b)) by (nonlinear_arith)
            requires
                -b >= 1,
        ;
        lemma_tdiv_mag(-p, -b, 0x40000000000000);
    }
}


/// Squares of differences expand as usual.
pub proof fn lemma_sq_diff(u: int, v: int)
    ensures
        (u - v) * (u - v) == u * u - 2 * (u * v) + v * v,
{
    assert((u - v) * (u - v) == u * u - 2 * (u * v) + v * v) by (nonlinear_arith);
}

/// Products of products regroup freely.
pub proof fn lemma_mul_shuffle(x: int, y: int, z: int, w: int)
    ensures
        (x * y) * (z * w) == (x * z) * (y * w),
{
    assert((x * y) * (z * w) == (x * z) * (y * w)) by (nonlinear_arith);
}

/// Two-term left distribution.
pub proof fn lemma_dist2_l(m: int, p1: int, p2: int)
    ensures
        m * (p1 + p2) == m * p1 + m * p2,
{
    assert(m * (p1 + p2) == m * p1 + m * p2) by (nonlinear_arith);
}

/// Three-term right distribution.
pub proof fn lemma_dist3_r(p1: int, p2: int, p3: int, m: int)
    ensures
        (p1 + p2 + p3) * m == p1 * m + p2 * m + p3 * m,
{
    assert((p1 + p2 + p3) * m == p1 * m + p2 * m + p3 * m) by (nonlinear_arith);
}

/// Three-term left distribution.
pub proof fn lemma_dist3_l(m: int, p1: int, p2: int, p3: int)
    ensures
        m * (p1 + p2 + p3) == m * p1 + m * p2 + m * p3,
{
    assert(m * (p1 + p2 + p3) == m * p1 + m * p2 + m * p3) by (nonlinear_arith);
}

/// The integer square root is unique.
pub proof fn lemma_isqrt_unique(r1: int, r2: int, n: int)
    requires
        is_isqrt(r1, n),
        is_isqrt(r2, n),
    ensures
        r1 == r2,
{
    if r1 < r2 {
        assert((r1 + 1) * (r1 + 1) <= r2 * r2) by (nonlinear_arith)
            requires
                0 <= r1 < r2,
        ;
    }
    if r2 < r1 {
        assert((r2 + 1) * (r2 + 1) <= r1 * r1) by (nonlinear_arith)
            requires
                0 <= r2 < r1,
        ;
    }
}

/// Every non-negative integer has an integer square root, so `isqrt_spec`
/// satisfies `is_isqrt`.
pub proof fn lemma_isqrt_exists(n: int)
    requires
        n >= 0,
    ensures
        is_isqrt(isqrt_spec(n), n),
    decreases n,
{
    if n == 0 {
        assert(is_isqrt(0, 0));
    } else {
        lemma_isqrt_exists(n - 1);
        let r = isqrt_spec(n - 1);
        if (r + 1) * (r + 1) <= n {
            assert(is_isqrt(r + 1, n)) by (nonlinear_arith)
                requires
                    0 <= r,
                    (r + 1) * (r + 1) <= n,
                    n - 1 < (r + 1) * (r + 1),
            ;
        } else {
            assert(is_isqrt(r, n));
        }
    }
    assert(exists|r: int| is_isqrt(r, n));
}

/// A fixed-point scalar: `raw` holds the represented value times `SCALE`.
#[derive(Clone, Copy, PartialEq, Eq, Structural, Debug)]
pub struct Fx {
    pub raw: i64,
}

impl View for Fx {
    type V = int;

    open spec fn view(&self) -> int {
        self.raw as int
    }
}

impl Fx {
    /// The scalar holding `v` whole units.
    pub fn from_int(v: i64) -> (r: Fx)
        requires
            i64::MIN <= v * sc() <= i64::MAX,
        ensures
            r@ == v * sc(),
    {
        Fx { raw: v * SCALE }
    }

    /// The scalar with the given raw representation.
    pub fn from_raw(raw: i64) -> (r: Fx)
        ensures
            r@ == raw,
    {
        Fx { raw }
    }

    /// The zero scalar.
    pub fn zero() -> (r: Fx)
        ensures
            r@ == 0,
    {
        Fx { raw: 0 }
    }

    /// The scalar for one whole unit.
    pub fn one() -> (r: Fx)
        ensures
            r@ == sc(),
    {
        Fx { raw: SCALE }
    }

    pub fn add(self, o: Fx) -> (r: Fx)
        requires
            i64::MIN <= self@ + o@ <= i64::MAX,
        ensures
            r@ == self@ + o@,
    {
        Fx { raw: self.raw + o.raw }
    }

    pub fn sub(self, o: Fx) -> (r: Fx)
        requires
            i64::MIN <= self@ - o@ <= i64::MAX,
        ensures
            r@ == self@ - o@,
    {
        Fx { raw: self.raw - o.raw }
    }

    pub fn neg(self) -> (r: Fx)
        requires
            self@ > i64::MIN,
        ensures
            r@ == -self@,
    {
        Fx { raw: -self.raw }
    }

    /// Fixed-point product: the exact integer product scaled back down,
    /// rounding toward zero.
    pub fn mul(self, o: Fx) -> (r: Fx)
        requires
            i64::MIN <= fxmul(self@, o@) <= i64::MAX,
        ensures
            r@ == fxmul(self@, o@),
    {
        let p: i128 = (self.raw as i128) * (o.raw as i128);
        let q: i128 = p / (SCALE as i128);
        proof {
            lemma_tdiv_mag(p as int, sc(), if p >= 0 { p as int } else { -(p as int) });
        }
        Fx { raw: q as i64 }
    }

    /// Fixed-point quotient, rounding toward zero.
    pub fn div(self, o: Fx) -> (r: Fx)
        requires
            o@ != 0,
            i64::MIN <= fxdiv(self@, o@) <= i64::MAX,
        ensures
            r@ == fxdiv(self@, o@),
    {
        proof {
            assert(-0x100000000000000000000 <= (self.raw as int) * (SCALE as int)
                <= 0x100000000000000000000) by (nonlinear_arith)
                requires
                    -0x8000000000000000 <= self.raw as int <= 0x7fffffffffffffff,
            ;
        }
        let p: i128 = (self.raw as i128) * (SCALE as i128);
        let q: i128 = if o.raw < 0 {
            (-p) / (-(o.raw as i128))
        } else {
            p / (o.raw as i128)
        };
        Fx { raw: q as i64 }
    }

    /// Magnitude of the scalar.
    pub fn abs(self) -> (r: Fx)
        requires
            self@ > i64::MIN,
        ensures
            r@ == if self@ >= 0 { self@ } else { -self@ },
    {
        if self.raw >= 0 {
            self
        } else {
            Fx { raw: -self.raw }
        }
    }

    pub fn lt(self, o: Fx) -> (r: bool)
        ensures
            r == (self@ < o@),
    {
        self.raw < o.raw
    }

    pub fn le(self, o: Fx) -> (r: bool)
        ensures
            r == (self@ <= o@),
    {
        self.raw <= o.raw
    }
}

/// Integer square root of a non-negative `i128`, by binary search.
pub fn isqrt(n: i128) -> (r: i64)
    requires
        0 <= n < 0x10000000000000000000000000000,
    ensures
        is_isqrt(r as int, n as int),
        r as int == isqrt_spec(n as int),
        r >= 0,
{
    let mut lo: i128 = 0;
    let mut hi: i128 = 0x100000000000000;
    proof {
        assert(hi * hi > n) by (nonlinear_arith)
            requires
                hi == 0x100000000000000,
                n < 0x10000000000000000000000000000,
        ;
    }
    while lo + 1 < hi
        invariant
            0 <= lo < hi <= 0x100000000000000,
            lo * lo <= n,
            n < hi * hi,
        decreases hi - lo,
    {
        let mid: i128 = lo + (hi - lo) / 2;
        proof {
            assert(lo < mid < hi);
            assert(mid * mid <= 0x100000000000000 * 0x100000000000000) by (nonlinear_arith)
                requires
                    0 <= mid <= 0x100000000000000,
            ;
        }
        if mid * mid <= n {
            lo = mid;
        } else {
            hi = mid;
        }
    }
    proof {
        assert(is_isqrt(lo as int, n as int));
        lemma_isqrt_exists(n as int);
        lemma_isqrt_unique(lo as int, isqrt_spec(n as int), n as int);
    }
    lo as i64
}

} // verus!
