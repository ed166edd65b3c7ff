//! Positions, directions and angles in 3-space.
//!
//! `Coord` is a free position, `Vector3D` a direction (zero direction is
//! rejected at construction and by the operations that need a magnitude),
//! `Angle` a scalar angle in radians and `Angle3D` a (roll, pitch, yaw)
//! triple.  All components are fixed-point scalars, so each operation's
//! contract states the exact integer it computes.

use crate::fixed::{
    bounded, fxdiv, fxmul, is_isqrt, isqrt, isqrt_spec, lemma_dist3_l, lemma_dist3_r,
    lemma_fxdiv_fits, lemma_fxmul_fits, lemma_mul_bound, lemma_mul_comm, lemma_mul_shuffle,
    lemma_sq_diff, lemma_tdiv, lemma_tdiv_mag, sc, tdiv, vlim, Fx, DEG_PER_RAD_FX, PI_FX, SCALE,
};
use crate::math::trig::{acos, acos_spec, atan2, atan2_spec};
use crate::shape::rotator::{qrot_fx, Rotator};
use vstd::prelude::*;

verus! {

/// A location in cartesian coordinates.  Z points up; looking along
/// positive X, Y extends to the right.  The origin is context-dependent:
/// a `Coord` may be an absolute position or an offset.
#[derive(Clone, Copy, PartialEq, Eq, Structural, Debug)]
pub struct Coord {
    pub x: Fx,
    pub y: Fx,
    pub z: Fx,
}

impl Coord {
    /// Dissolves the struct into a tuple.
    pub fn get(&self) -> (r: (Fx, Fx, Fx))
        ensures
            r == (self.x, self.y, self.z),
    {
        (self.x, self.y, self.z)
    }

    pub fn new(x: Fx, y: Fx, z: Fx) -> (r: Coord)
        ensures
            r == (Coord { x, y, z }),
    {
        Coord { x, y, z }
    }

    /// The origin.
    pub fn default() -> (r: Coord)
        ensures
            r.x@ == 0 && r.y@ == 0 && r.z@ == 0,
    {
        Coord { x: Fx::zero(), y: Fx::zero(), z: Fx::zero() }
    }

    /// The same location as a direction from the origin; the origin itself
    /// has no direction.
    pub fn to_vector(&self) -> (r: Vector3D)
        requires
            !(self.x@ == 0 && self.y@ == 0 && self.z@ == 0),
        ensures
            r.x == self.x && r.y == self.y && r.z == self.z,
    {
        Vector3D::new(self.x, self.y, self.z)
    }

    /// Multiplies all coordinates with a given scalar.
    pub fn mul(&self, mul: Fx) -> (r: Coord)
        requires
            self.is_bounded(vlim()),
            bounded(mul@, vlim()),
        ensures
            r.x@ == fxmul(self.x@, mul@),
            r.y@ == fxmul(self.y@, mul@),
            r.z@ == fxmul(self.z@, mul@),
    {
        proof {
            lemma_fxmul_fits(self.x@, mul@);
            lemma_fxmul_fits(self.y@, mul@);
            lemma_fxmul_fits(self.z@, mul@);
        }
        Coord { x: self.x.mul(mul), y: self.y.mul(mul), z: self.z.mul(mul) }
    }

    /// Component-wise difference.
    pub fn sub(&self, rhs: Coord) -> (r: Coord)
        requires
            self.is_bounded(vlim()),
            rhs.is_bounded(vlim()),
        ensures
            r.x@ == self.x@ - rhs.x@,
            r.y@ == self.y@ - rhs.y@,
            r.z@ == self.z@ - rhs.z@,
    {
        Coord { x: self.x.sub(rhs.x), y: self.y.sub(rhs.y), z: self.z.sub(rhs.z) }
    }

    /// Component-wise sum.
    pub fn add(&self, rhs: Coord) -> (r: Coord)
        requires
            self.is_bounded(vlim()),
            rhs.is_bounded(vlim()),
        ensures
            r.x@ == self.x@ + rhs.x@,
            r.y@ == self.y@ + rhs.y@,
            r.z@ == self.z@ + rhs.z@,
    {
        Coord { x: self.x.add(rhs.x), y: self.y.add(rhs.y), z: self.z.add(rhs.z) }
    }

    /// All components lie within `b` of zero.
    pub open spec fn is_bounded(&self, b: int) -> bool {
        bounded(self.x@, b) && bounded(self.y@, b) && bounded(self.z@, b)
    }
}

/// A direction in 3-space.
#[derive(Clone, Copy, PartialEq, Eq, Structural, Debug)]
pub struct Vector3D {
    pub x: Fx,
    pub y: Fx,
    pub z: Fx,
}

impl Vector3D {
    /// Sum of the squared raw components: the squared magnitude, scaled by
    /// `SCALE` squared.
    pub open spec fn sumsq(&self) -> int {
        self.x@ * self.x@ + self.y@ * self.y@ + self.z@ * self.z@
    }

    /// All components lie within `b` of zero.
    pub open spec fn is_bounded(&self, b: int) -> bool {
        bounded(self.x@, b) && bounded(self.y@, b) && bounded(self.z@, b)
    }

    /// The zero triple, which is not a direction.
    pub open spec fn is_zero(&self) -> bool {
        self.x@ == 0 && self.y@ == 0 && self.z@ == 0
    }

    /// Dissolves the vector into a tuple of its components.
    pub fn get(&self) -> (r: (Fx, Fx, Fx))
        ensures
            r == (self.x, self.y, self.z),
    {
        (self.x, self.y, self.z)
    }

    /// A direction must point somewhere: the all-zero triple is rejected.
    pub fn new(x: Fx, y: Fx, z: Fx) -> (r: Vector3D)
        requires
            !(x@ == 0 && y@ == 0 && z@ == 0),
        ensures
            r == (Vector3D { x, y, z }),
    {
        Vector3D { x, y, z }
    }

    /// The default direction: one unit along positive X.
    pub fn default() -> (r: Vector3D)
        ensures
            r.x@ == sc() && r.y@ == 0 && r.z@ == 0,
    {
        Vector3D { x: Fx::one(), y: Fx::zero(), z: Fx::zero() }
    }

    /// Scales every component.
    pub fn mul(&self, mul: Fx) -> (r: Vector3D)
        requires
            self.is_bounded(vlim()),
            bounded(mul@, vlim()),
        ensures
            r.x@ == fxmul(self.x@, mul@),
            r.y@ == fxmul(self.y@, mul@),
            r.z@ == fxmul(self.z@, mul@),
    {
        proof {
            lemma_fxmul_fits(self.x@, mul@);
            lemma_fxmul_fits(self.y@, mul@);
            lemma_fxmul_fits(self.z@, mul@);
        }
        Vector3D { x: self.x.mul(mul), y: self.y.mul(mul), z: self.z.mul(mul) }
    }

    /// The magnitude of the vector: the integer square root of the sum of
    /// the squared components.
    pub fn magnitude(&self) -> (r: Fx)
        requires
            self.is_bounded(vlim()),
        ensures
            is_isqrt(r@, self.sumsq()),
            r@ == isqrt_spec(self.sumsq()),
            0 <= r@ <= 0x20000000000,
            self.is_bounded(0x100000000) ==> r@ <= 0x400000000,
    {
        proof {
            lemma_mul_bound(self.x@, self.x@, vlim(), vlim());
            lemma_mul_bound(self.y@, self.y@, vlim(), vlim());
            lemma_mul_bound(self.z@, self.z@, vlim(), vlim());
            assert(self.x@ * self.x@ >= 0 && self.y@ * self.y@ >= 0 && self.z@ * self.z@ >= 0)
                by (nonlinear_arith);
        }
        let s: i128 = (self.x.raw as i128) * (self.x.raw as i128)
            + (self.y.raw as i128) * (self.y.raw as i128)
            + (self.z.raw as i128) * (self.z.raw as i128);
        let m: i64 = isqrt(s);
        proof {
            assert(m as int <= 0x20000000000) by (nonlinear_arith)
                requires
                    (m as int) * (m as int) <= s as int,
                    s as int <= 3 * 0x4000000000 * 0x4000000000,
                    m as int >= 0,
            ;
            if self.is_bounded(0x100000000) {
                assert(s as int <= 3 * 0x100000000 * 0x100000000 && m as int <= 0x400000000)
                    by (nonlinear_arith)
                    requires
                        (m as int) * (m as int) <= s as int,
                        s as int == self.x@ * self.x@ + self.y@ * self.y@ + self.z@ * self.z@,
                        -0x100000000 <= self.x@ <= 0x100000000,
                        -0x100000000 <= self.y@ <= 0x100000000,
                        -0x100000000 <= self.z@ <= 0x100000000,
                        m as int >= 0,
                ;
            }
        }
        Fx { raw: m }
    }

    /// The dot product: the exact sum of the component products, scaled
    /// back down once.
    pub fn dot(&self, other: Vector3D) -> (r: Fx)
        requires
            self.is_bounded(vlim()),
            other.is_bounded(vlim()),
        ensures
            r@ == tdiv(
                self.x@ * other.x@ + self.y@ * other.y@ + self.z@ * other.z@,
                sc(),
            ),
            bounded(r@, 0x3000000000000000),
    {
        proof {
            lemma_mul_bound(self.x@, other.x@, vlim(), vlim());
            lemma_mul_bound(self.y@, other.y@, vlim(), vlim());
            lemma_mul_bound(self.z@, other.z@, vlim(), vlim());
        }
        let p: i128 = (self.x.raw as i128) * (other.x.raw as i128)
            + (self.y.raw as i128) * (other.y.raw as i128)
            + (self.z.raw as i128) * (other.z.raw as i128);
        let q: i128 = p / (SCALE as i128);
        proof {
            lemma_tdiv_mag(p as int, sc(), 0x3000000000000000);
        }
        Fx { raw: q as i64 }
    }

    /// The cross product.  Each component is the exact two-term difference,
    /// scaled back down once.
    pub fn cross(&self, other: Vector3D) -> (r: Vector3D)
        requires
            self.is_bounded(vlim()),
            other.is_bounded(vlim()),
        ensures
            r.x@ == tdiv(self.y@ * other.z@ - self.z@ * other.y@, sc()),
            r.y@ == tdiv(self.z@ * other.x@ - self.x@ * other.z@, sc()),
            r.z@ == tdiv(self.x@ * other.y@ - self.y@ * other.x@, sc()),
    {
        let x = cross_term(self.y, other.z, self.z, other.y);
        let y = cross_term(self.z, other.x, self.x, other.z);
        let z = cross_term(self.x, other.y, self.y, other.x);
        Vector3D { x, y, z }
    }

    /// Rotates the vector by the given orientation.
    pub fn rotate(&self, rotator: &Rotator) -> (r: Vector3D)
        requires
            rotator.is_wf(),
            self.is_bounded(0x100000000),
        ensures
            (r.x@, r.y@, r.z@) == ({
                let q = qrot_fx(rotator.qv(), (self.x@, self.y@, self.z@));
                (q.0, q.1, q.2)
            }),
            r.is_bounded(0x2000000000),
            self.is_bounded(0x4000000) ==> r.is_bounded(0x40000000),
            rotator.is_identity() ==> r.x@ == self.x@ && r.y@ == self.y@ && r.z@ == self.z@,
    {
        rotator.apply(*self)
    }

    /// The angle this vector and another enclose, as `angle_between`
    /// computes it: the arccosine of the dot product over the product of
    /// the magnitudes, clamped to the unit interval.  When the scaled
    /// product of the magnitudes truncates to nothing (both vectors
    /// shorter than one unit), the vectors are treated as aligned.
    pub open spec fn angle_between_spec(&self, other: Vector3D) -> int {
        let d = tdiv(
            self.x@ * other.x@ + self.y@ * other.y@ + self.z@ * other.z@,
            sc(),
        );
        let denom = fxmul(isqrt_spec(self.sumsq()), isqrt_spec(other.sumsq()));
        if denom <= 0 {
            acos_spec(sc())
        } else {
            acos_spec(clamped_ratio_spec(d, denom))
        }
    }

    /// The angle between this vector and another, from the clamped cosine.
    /// The result always lies in [0, pi].
    pub fn angle_between(&self, other: Vector3D) -> (r: Fx)
        requires
            self.is_bounded(0x100000000),
            other.is_bounded(0x100000000),
        ensures
            r@ == self.angle_between_spec(other),
            0 <= r@ <= PI_FX as int,
    {
        let mag_self = self.magnitude();
        let mag_other = other.magnitude();
        let dot = self.dot(other);
        proof {
            lemma_mul_bound(mag_self@, mag_other@, 0x400000000, 0x400000000);
            lemma_tdiv_mag(mag_self@ * mag_other@, sc(), 0x100000000000000);
        }
        let denom = mag_self.mul(mag_other);
        if denom.raw <= 0 {
            let r = acos(Fx { raw: SCALE });
            return r;
        }
        let tc = clamped_ratio(dot, denom);
        acos(tc)
    }

    /// The direction in spherical terms: yaw about the vertical from the
    /// positive X axis, pitch up from the horizontal plane.  Roll cannot
    /// be recovered from a direction alone and is reported as zero.
    pub fn angle(&self) -> (r: Angle3D)
        requires
            self.is_bounded(0x100000000),
        ensures
            r.roll@ == 0,
            r.yaw@ == atan2_spec(self.y@, self.x@),
            r.pitch@ == atan2_spec(
                self.z@,
                isqrt_spec(self.x@ * self.x@ + self.y@ * self.y@),
            ),
            bounded(r.yaw@, PI_FX as int),
            bounded(r.pitch@, PI_FX as int),
            self.y@ == 0 && self.x@ > 0 ==> r.yaw@ == 0,
            self.z@ == 0 && (self.x@ != 0 || self.y@ != 0) ==> r.pitch@ == 0,
    {
        let yaw = Angle::from_radian(atan2(self.y, self.x));
        proof {
            lemma_mul_bound(self.x@, self.x@, 0x100000000, 0x100000000);
            lemma_mul_bound(self.y@, self.y@, 0x100000000, 0x100000000);
            assert(self.x@ * self.x@ >= 0 && self.y@ * self.y@ >= 0) by (nonlinear_arith);
            if self.x@ != 0 || self.y@ != 0 {
                assert(self.x@ * self.x@ + self.y@ * self.y@ >= 1) by (nonlinear_arith)
                    requires
                        self.x@ != 0 || self.y@ != 0,
                ;
            }
        }
        let h: i128 = (self.x.raw as i128) * (self.x.raw as i128) + (self.y.raw as i128)
            * (self.y.raw as i128);
        let hm: i64 = isqrt(h);
        proof {
            assert(hm as int <= 0x200000000) by (nonlinear_arith)
                requires
                    (hm as int) * (hm as int) <= h as int,
                    h as int <= 2 * 0x100000000 * 0x100000000,
                    hm as int >= 0,
            ;
            if self.x@ != 0 || self.y@ != 0 {
                assert(hm as int >= 1) by (nonlinear_arith)
                    requires
                        h as int >= 1,
                        is_isqrt(hm as int, h as int),
                ;
            }
        }
        let pitch = Angle::from_radian(atan2(self.z, Fx { raw: hm }));
        Angle3D { roll: Angle::default(), pitch, yaw }
    }

    /// Converts the vector into coordinates.
    pub fn as_coord(&self) -> (r: Coord)
        ensures
            r.x == self.x && r.y == self.y && r.z == self.z,
    {
        Coord { x: self.x, y: self.y, z: self.z }
    }

    /// Divides every component by the magnitude.  The result's components
    /// are exactly the truncated quotients; its squared magnitude is the
    /// square of one unit up to a small stated tolerance (the upper bound
    /// needs the input to be at least half a unit long).
    pub fn normalise(&self) -> (r: Vector3D)
        requires
            self.is_bounded(vlim()),
            self.sumsq() >= 1,
        ensures
            r.x@ == tdiv(self.x@ * sc(), isqrt_spec(self.sumsq())),
            r.y@ == tdiv(self.y@ * sc(), isqrt_spec(self.sumsq())),
            r.z@ == tdiv(self.z@ * sc(), isqrt_spec(self.sumsq())),
            r.is_bounded(sc()),
            r.sumsq() >= sc() * sc() - 6 * sc(),
            2 * isqrt_spec(self.sumsq()) >= sc() ==> r.sumsq() <= sc() * sc() + 10 * sc() + 3,
    {
        let m = self.magnitude();
        proof {
            assert(m@ >= 1) by (nonlinear_arith)
                requires
                    self.sumsq() >= 1,
                    is_isqrt(m@, self.sumsq()),
            ;
        }
        let nx = norm_div(self.x, m);
        let ny = norm_div(self.y, m);
        let nz = norm_div(self.z, m);
        proof {
            lemma_normalised_sumsq(self.x@, self.y@, self.z@, m@, nx@, ny@, nz@);
        }
        Vector3D { x: nx, y: ny, z: nz }
    }
}

/// Lagrange's identity in three dimensions, over exact integers: the
/// squared magnitude of the cross product equals the product of the
/// squared magnitudes minus the squared dot product.
pub proof fn lemma_lagrange_identity(a: (int, int, int), b: (int, int, int))
    ensures
        (a.1 * b.2 - a.2 * b.1) * (a.1 * b.2 - a.2 * b.1) + (a.2 * b.0 - a.0 * b.2) * (a.2 * b.0
            - a.0 * b.2) + (a.0 * b.1 - a.1 * b.0) * (a.0 * b.1 - a.1 * b.0) == (a.0 * a.0 + a.1
            * a.1 + a.2 * a.2) * (b.0 * b.0 + b.1 * b.1 + b.2 * b.2) - (a.0 * b.0 + a.1 * b.1
            + a.2 * b.2) * (a.0 * b.0 + a.1 * b.1 + a.2 * b.2),
{
    lemma_sq_diff(a.1 * b.2, a.2 * b.1);
    lemma_mul_shuffle(a.1, b.2, a.1, b.2);
    lemma_mul_shuffle(a.1, b.2, a.2, b.1);
    lemma_mul_shuffle(a.2, b.1, a.2, b.1);
    lemma_sq_diff(a.2 * b.0, a.0 * b.2);
    lemma_mul_shuffle(a.2, b.0, a.2, b.0);
    lemma_mul_shuffle(a.2, b.0, a.0, b.2);
    lemma_mul_shuffle(a.0, b.2, a.0, b.2);
    lemma_sq_diff(a.0 * b.1, a.1 * b.0);
    lemma_mul_shuffle(a.0, b.1, a.0, b.1);
    lemma_mul_shuffle(a.0, b.1, a.1, b.0);
    lemma_mul_shuffle(a.1, b.0, a.1, b.0);
    lemma_dist3_r(a.0 * a.0, a.1 * a.1, a.2 * a.2, b.0 * b.0 + b.1 * b.1 + b.2 * b.2);
    lemma_dist3_l(a.0 * a.0, b.0 * b.0, b.1 * b.1, b.2 * b.2);
    lemma_dist3_l(a.1 * a.1, b.0 * b.0, b.1 * b.1, b.2 * b.2);
    lemma_dist3_l(a.2 * a.2, b.0 * b.0, b.1 * b.1, b.2 * b.2);
    lemma_dist3_r(a.0 * b.0, a.1 * b.1, a.2 * b.2, a.0 * b.0 + a.1 * b.1 + a.2 * b.2);
    lemma_dist3_l(a.0 * b.0, a.0 * b.0, a.1 * b.1, a.2 * b.2);
    lemma_dist3_l(a.1 * b.1, a.0 * b.0, a.1 * b.1, a.2 * b.2);
    lemma_dist3_l(a.2 * b.2, a.0 * b.0, a.1 * b.1, a.2 * b.2);
    lemma_mul_shuffle(a.0, b.0, a.0, b.0);
    lemma_mul_shuffle(a.0, b.0, a.1, b.1);
    lemma_mul_shuffle(a.0, b.0, a.2, b.2);
    lemma_mul_shuffle(a.1, b.1, a.0, b.0);
    lemma_mul_shuffle(a.1, b.1, a.1, b.1);
    lemma_mul_shuffle(a.1, b.1, a.2, b.2);
    lemma_mul_shuffle(a.2, b.2, a.0, b.0);
    lemma_mul_shuffle(a.2, b.2, a.1, b.1);
    lemma_mul_shuffle(a.2, b.2, a.2, b.2);
    lemma_mul_comm(a.1, a.0);
    lemma_mul_comm(b.1, b.0);
    assert((a.0 * a.1) * (b.1 * b.0) == (a.0 * a.1) * (b.0 * b.1));
    assert((a.1 * a.0) * (b.0 * b.1) == (a.0 * a.1) * (b.0 * b.1));
    assert((a.1 * a.0) * (b.1 * b.0) == (a.0 * a.1) * (b.0 * b.1));
    lemma_mul_comm(a.2, a.0);
    lemma_mul_comm(b.2, b.0);
    assert((a.0 * a.2) * (b.2 * b.0) == (a.0 * a.2) * (b.0 * b.2));
    assert((a.2 * a.0) * (b.0 * b.2) == (a.0 * a.2) * (b.0 * b.2));
    assert((a.2 * a.0) * (b.2 * b.0) == (a.0 * a.2) * (b.0 * b.2));
    lemma_mul_comm(a.2, a.1);
    lemma_mul_comm(b.2, b.1);
    assert((a.1 * a.2) * (b.2 * b.1) == (a.1 * a.2) * (b.1 * b.2));
    assert((a.2 * a.1) * (b.1 * b.2) == (a.1 * a.2) * (b.1 * b.2));
    assert((a.2 * a.1) * (b.2 * b.1) == (a.1 * a.2) * (b.1 * b.2));
}

/// For two directions of equal squared magnitude `k` whose dot product
/// vanishes, the exact cross product has squared magnitude `k * k`: the
/// cross product of orthogonal unit vectors is a unit vector.
pub proof fn lemma_orthogonal_cross_magnitude(a: (int, int, int), b: (int, int, int), k: int)
    requires
        a.0 * a.0 + a.1 * a.1 + a.2 * a.2 == k,
        b.0 * b.0 + b.1 * b.1 + b.2 * b.2 == k,
        a.0 * b.0 + a.1 * b.1 + a.2 * b.2 == 0,
    ensures
        (a.1 * b.2 - a.2 * b.1) * (a.1 * b.2 - a.2 * b.1) + (a.2 * b.0 - a.0 * b.2) * (a.2 * b.0
            - a.0 * b.2) + (a.0 * b.1 - a.1 * b.0) * (a.0 * b.1 - a.1 * b.0) == k * k,
{
    lemma_lagrange_identity(a, b);
    assert(k * k - 0 * 0 == k * k) by (nonlinear_arith);
}

/// A scalar angle, stored in radians.
#[derive(Clone, Copy, PartialEq, Eq, Structural, Debug)]
pub struct Angle {
    angle: Fx,
}

impl View for Angle {
    type V = int;

    closed spec fn view(&self) -> int {
        self.angle@
    }
}

impl Angle {
    /// Wraps a scalar already measured in radians.
    pub fn from_radian(angle: Fx) -> (r: Angle)
        ensures
            r@ == angle@,
    {
        Angle { angle }
    }

    /// Converts a scalar measured in degrees to radians.
    pub fn from_degree(angle: Fx) -> (r: Angle)
        requires
            bounded(angle@, vlim()),
        ensures
            r@ == fxdiv(angle@, DEG_PER_RAD_FX as int),
    {
        proof {
            lemma_fxdiv_fits(angle@, DEG_PER_RAD_FX as int);
        }
        Angle { angle: angle.div(Fx { raw: DEG_PER_RAD_FX }) }
    }

    /// The angle in radians; same as `get_radian`.
    pub fn get(&self) -> (r: Fx)
        ensures
            r@ == self@,
    {
        self.angle
    }

    /// The angle in radians; same as `get`.
    pub fn get_radian(&self) -> (r: Fx)
        ensures
            r@ == self@,
    {
        self.angle
    }

    /// The angle converted to degrees: the inverse of `from_degree`.
    pub fn get_degrees(&self) -> (r: Fx)
        requires
            bounded(self@, vlim()),
        ensures
            r@ == fxmul(self@, DEG_PER_RAD_FX as int),
    {
        proof {
            lemma_fxmul_fits(self@, DEG_PER_RAD_FX as int);
        }
        self.angle.mul(Fx { raw: DEG_PER_RAD_FX })
    }

    /// The zero angle.
    pub fn default() -> (r: Angle)
        ensures
            r@ == 0,
    {
        Angle { angle: Fx::zero() }
    }

    pub fn mul(self, rhs: Angle) -> (r: Angle)
        requires
            bounded(self@, vlim()),
            bounded(rhs@, vlim()),
        ensures
            r@ == fxmul(self@, rhs@),
    {
        proof {
            lemma_fxmul_fits(self@, rhs@);
        }
        Angle { angle: self.angle.mul(rhs.angle) }
    }

    pub fn div(self, rhs: Angle) -> (r: Angle)
        requires
            rhs@ != 0,
            bounded(self@, vlim()),
        ensures
            r@ == fxdiv(self@, rhs@),
    {
        proof {
            lemma_fxdiv_fits(self@, rhs@);
        }
        Angle { angle: self.angle.div(rhs.angle) }
    }

    pub fn add(self, rhs: Angle) -> (r: Angle)
        requires
            i64::MIN <= self@ + rhs@ <= i64::MAX,
        ensures
            r@ == self@ + rhs@,
    {
        Angle { angle: self.angle.add(rhs.angle) }
    }

    pub fn sub(self, rhs: Angle) -> (r: Angle)
        requires
            i64::MIN <= self@ - rhs@ <= i64::MAX,
        ensures
            r@ == self@ - rhs@,
    {
        Angle { angle: self.angle.sub(rhs.angle) }
    }
}

/// An orientation as Euler angles: roll, pitch and yaw.
#[derive(Clone, Copy, PartialEq, Eq, Structural, Debug)]
pub struct Angle3D {
    /// Roll
    pub roll: Angle,
    /// Pitch
    pub pitch: Angle,
    /// Yaw
    pub yaw: Angle,
}

impl Angle3D {
    /// All three angles are zero.
    pub open spec fn is_zero(&self) -> bool {
        self.roll@ == 0 && self.pitch@ == 0 && self.yaw@ == 0
    }

    /// All three angles lie within `b` of zero.
    pub open spec fn is_bounded(&self, b: int) -> bool {
        bounded(self.roll@, b) && bounded(self.pitch@, b) && bounded(self.yaw@, b)
    }

    /// Dissolves the struct into a tuple.
    pub fn get(&self) -> (r: (Angle, Angle, Angle))
        ensures
            r == (self.roll, self.pitch, self.yaw),
    {
        (self.roll, self.pitch, self.yaw)
    }

    pub fn new(roll: Angle, pitch: Angle, yaw: Angle) -> (r: Angle3D)
        ensures
            r == (Angle3D { roll, pitch, yaw }),
    {
        Angle3D { yaw, pitch, roll }
    }

    /// Multiplies the three angles with a given scalar.
    pub fn mul(&self, mul: Fx) -> (r: Angle3D)
        requires
            self.is_bounded(vlim()),
            bounded(mul@, vlim()),
        ensures
            r.roll@ == fxmul(self.roll@, mul@),
            r.pitch@ == fxmul(self.pitch@, mul@),
            r.yaw@ == fxmul(self.yaw@, mul@),
    {
        let as_angle = Angle::from_radian(mul);
        Angle3D {
            roll: self.roll.mul(as_angle),
            pitch: self.pitch.mul(as_angle),
            yaw: self.yaw.mul(as_angle),
        }
    }

    /// Returns this struct with all values set to zero, the origin.
    pub fn default() -> (r: Angle3D)
        ensures
            r.is_zero(),
    {
        Angle3D { roll: Angle::default(), pitch: Angle::default(), yaw: Angle::default() }
    }

    pub fn add(self, rhs: Angle3D) -> (r: Angle3D)
        requires
            i64::MIN <= self.roll@ + rhs.roll@ <= i64::MAX,
            i64::MIN <= self.pitch@ + rhs.pitch@ <= i64::MAX,
            i64::MIN <= self.yaw@ + rhs.yaw@ <= i64::MAX,
        ensures
            r.roll@ == self.roll@ + rhs.roll@,
            r.pitch@ == self.pitch@ + rhs.pitch@,
            r.yaw@ == self.yaw@ + rhs.yaw@,
    {
        Angle3D::new(self.roll.add(rhs.roll), self.pitch.add(rhs.pitch), self.yaw.add(rhs.yaw))
    }
}

/// The quotient of two scalars clamped to the unit interval.
pub open spec fn clamped_ratio_spec(num: int, den: int) -> int {
    let q = fxdiv(num, den);
    if q > sc() {
        sc()
    } else if q < -sc() {
        -sc()
    } else {
        q
    }
}

/// The quotient of two scalars clamped to the unit interval: exactly
/// `num / den` where that lies within one unit, else the nearer unit.
pub fn clamped_ratio(num: Fx, den: Fx) -> (r: Fx)
    requires
        den@ >= 1,
    ensures
        r@ == clamped_ratio_spec(num@, den@),
        bounded(r@, sc()),
        bounded(fxdiv(num@, den@), sc()) ==> r@ == fxdiv(num@, den@),
{
    proof {
        assert(bounded((num.raw as int) * 65536, 0x100000000000000000000)) by (nonlinear_arith)
            requires
                -0x8000000000000000 <= num.raw as int <= 0x7fffffffffffffff,
        ;
    }
    let n: i128 = (num.raw as i128) * (SCALE as i128);
    let d: i128 = den.raw as i128;
    let ds: i128 = d * (SCALE as i128);
    let ghost a = num@ * sc();
    let ghost q = tdiv(a, den@);
    proof {
        lemma_tdiv(a, den@);
        if n >= ds {
            assert(q >= 65536) by (nonlinear_arith)
                requires
                    a >= den@ * 65536,
                    den@ >= 1,
                    0 <= a - den@ * q < den@,
            ;
        } else if n <= -ds {
            assert(q <= -65536) by (nonlinear_arith)
                requires
                    a <= -(den@ * 65536),
                    den@ >= 1,
                    -den@ < a - den@ * q <= 0,
            ;
        } else {
            assert(bounded(q, 65536)) by (nonlinear_arith)
                requires
                    -(den@ * 65536) < a < den@ * 65536,
                    den@ >= 1,
                    a >= 0 ==> 0 <= a - den@ * q < den@ && q >= 0,
                    a <= 0 ==> -den@ < a - den@ * q <= 0 && q <= 0,
            ;
        }
    }
    if n >= ds {
        Fx { raw: SCALE }
    } else if n <= -ds {
        Fx { raw: -SCALE }
    } else {
        Fx { raw: (n / d) as i64 }
    }
}

/// One cross-product component: `a * b - c * d`, scaled back down once.
fn cross_term(a: Fx, b: Fx, c: Fx, d: Fx) -> (r: Fx)
    requires
        bounded(a@, vlim()),
        bounded(b@, vlim()),
        bounded(c@, vlim()),
        bounded(d@, vlim()),
    ensures
        r@ == tdiv(a@ * b@ - c@ * d@, sc()),
        bounded(r@, 0x2000000000000000),
{
    proof {
        lemma_mul_bound(a@, b@, vlim(), vlim());
        lemma_mul_bound(c@, d@, vlim(), vlim());
    }
    let p: i128 = (a.raw as i128) * (b.raw as i128) - (c.raw as i128) * (d.raw as i128);
    let q: i128 = p / (SCALE as i128);
    proof {
        lemma_tdiv_mag(p as int, sc(), 0x2000000000000000);
    }
    Fx { raw: q as i64 }
}

/// One normalization component: `x` scaled up one unit and divided by the
/// magnitude `m`.
fn norm_div(x: Fx, m: Fx) -> (r: Fx)
    requires
        bounded(x@, vlim()),
        m@ >= 1,
    ensures
        r@ == tdiv(x@ * sc(), m@),
{
    proof {
        lemma_fxdiv_fits(x@, m@);
    }
    x.div(m)
}

/// One component of a normalized vector: bounds on `nx * nx * (m * m)`
/// in terms of the original component.
proof fn lemma_norm_comp(x: int, m: int, nx: int)
    requires
        1 <= m,
        x * x <= m * m + 2 * m,
        nx == tdiv(x * sc(), m),
    ensures
        nx * nx * (m * m) <= sc() * sc() * (x * x) + 2 * sc() * (m * m) + m * m,
        nx * nx * (m * m) >= sc() * sc() * (x * x) - 2 * sc() * (m * m),
        -sc() <= nx <= sc(),
{
    lemma_tdiv(x * sc(), m);
    let d = x * sc() - m * nx;
    assert(-m <= x <= m) by (nonlinear_arith)
        requires
            x * x <= m * m + 2 * m,
            m >= 1,
    ;
    assert(-m < d < m);
    assert(-(sc() * m) <= x * sc() <= sc() * m) by (nonlinear_arith)
        requires
            -m <= x <= m,
    ;
    lemma_tdiv_mag(x * sc(), m, sc());
    assert(nx * nx * (m * m) <= sc() * sc() * (x * x) + 2 * sc() * (m * m) + m * m
        && nx * nx * (m * m) >= sc() * sc() * (x * x) - 2 * sc() * (m * m)) by (nonlinear_arith)
        requires
            m >= 1,
            -m <= x <= m,
            -m < d < m,
            m * nx == x * sc() - d,
            sc() == 65536,
    ;
}

/// After dividing a vector's components by its magnitude the squared
/// magnitude is one unit squared, within the stated tolerance: never more
/// than `6 * SCALE` below it and, when the original vector was at least
/// half a unit long, never more than `10 * SCALE + 3` above it.
pub proof fn lemma_normalised_sumsq(x: int, y: int, z: int, m: int, nx: int, ny: int, nz: int)
    requires
        1 <= m,
        is_isqrt(m, x * x + y * y + z * z),
        nx == tdiv(x * sc(), m),
        ny == tdiv(y * sc(), m),
        nz == tdiv(z * sc(), m),
    ensures
        nx * nx + ny * ny + nz * nz >= sc() * sc() - 6 * sc(),
        2 * m >= sc() ==> nx * nx + ny * ny + nz * nz <= sc() * sc() + 10 * sc() + 3,
        -sc() <= nx <= sc() && -sc() <= ny <= sc() && -sc() <= nz <= sc(),
{
    let s = x * x + y * y + z * z;
    assert(s < m * m + 2 * m + 1) by (nonlinear_arith)
        requires
            s < (m + 1) * (m + 1),
    ;
    assert(x * x >= 0 && y * y >= 0 && z * z >= 0) by (nonlinear_arith);
    lemma_norm_comp(x, m, nx);
    lemma_norm_comp(y, m, ny);
    lemma_norm_comp(z, m, nz);
    let q = nx * nx + ny * ny + nz * nz;
    assert(q * (m * m) == nx * nx * (m * m) + ny * ny * (m * m) + nz * nz * (m * m))
        by (nonlinear_arith)
        requires
            q == nx * nx + ny * ny + nz * nz,
    ;
    assert(q * (m * m) >= sc() * sc() * s - 6 * sc() * (m * m)) by (nonlinear_arith)
        requires
            q * (m * m) == nx * nx * (m * m) + ny * ny * (m * m) + nz * nz * (m * m),
            nx * nx * (m * m) >= sc() * sc() * (x * x) - 2 * sc() * (m * m),
            ny * ny * (m * m) >= sc() * sc() * (y * y) - 2 * sc() * (m * m),
            nz * nz * (m * m) >= sc() * sc() * (z * z) - 2 * sc() * (m * m),
            s == x * x + y * y + z * z,
    ;
    assert(sc() * sc() * s >= sc() * sc() * (m * m)) by (nonlinear_arith)
        requires
            s >= m * m,
    ;
    assert(q * (m * m) >= (sc() * sc() - 6 * sc()) * (m * m)) by (nonlinear_arith)
        requires
            q * (m * m) >= sc() * sc() * (m * m) - 6 * sc() * (m * m),
    ;
    assert(q >= sc() * sc() - 6 * sc()) by (nonlinear_arith)
        requires
            q * (m * m) >= (sc() * sc() - 6 * sc()) * (m * m),
            m >= 1,
    ;
    if 2 * m >= sc() {
        assert(q * (m * m) <= sc() * sc() * s + (6 * sc() + 3) * (m * m)) by (nonlinear_arith)
            requires
                q * (m * m) == nx * nx * (m * m) + ny * ny * (m * m) + nz * nz * (m * m),
                nx * nx * (m * m) <= sc() * sc() * (x * x) + 2 * sc() * (m * m) + m * m,
                ny * ny * (m * m) <= sc() * sc() * (y * y) + 2 * sc() * (m * m) + m * m,
                nz * nz * (m * m) <= sc() * sc() * (z * z) + 2 * sc() * (m * m) + m * m,
                s == x * x + y * y + z * z,
        ;
        assert(sc() * sc() * s <= sc() * sc() * (m * m) + 2 * sc() * sc() * m) by (nonlinear_arith)
            requires
                s <= m * m + 2 * m,
        ;
        assert(2 * sc() * sc() * m <= 4 * sc() * (m * m)) by (nonlinear_arith)
            requires
                2 * m >= sc(),
                m >= 1,
                sc() == 65536,
        ;
        assert(q * (m * m) <= (sc() * sc() + 10 * sc() + 3) * (m * m)) by (nonlinear_arith)
            requires
                q * (m * m) <= sc() * sc() * (m * m) + 4 * sc() * (m * m) + (6 * sc() + 3) * (m
                    * m),
        ;
        assert(q <= sc() * sc() + 10 * sc() + 3) by (nonlinear_arith)
            requires
                q * (m * m) <= (sc() * sc() + 10 * sc() + 3) * (m * m),
                m >= 1,
        ;
    }
}

} // verus!
