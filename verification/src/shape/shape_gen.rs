//! Parametric shape generators.
//!
//! A generator owns its construction parameters and exposes one
//! operation: populate a shape's point cloud in the shape's local frame.
//! The contract is uniform and exact: existing samples are kept and the
//! generator appends precisely its `emit` sequence — for the torus, the
//! spec formula evaluated at each pair of angle steps; for the cube, the
//! grid sample of each interior cell of the six faces — so generation is
//! deterministic.  The `point_ok` predicate abstracts each sample's
//! geometry: the torus sample lies within the tube around the major
//! circle with a unit normal, the cube sample on a face of the box with
//! that face's outward unit normal.

use crate::basetype::{Coord, Vector3D};
use crate::fixed::{
    bounded, fxmul, lemma_dist2_l, lemma_mul_bound, lemma_mul_shuffle, lemma_sq_diff, lemma_tdiv,
    lemma_tdiv_exact, lemma_tdiv_mag, sc, tdiv, vlim, Fx, SCALE, TWO_PI_FX,
};
use crate::math::trig::{cos_sin, cos_sin_spec};
use crate::shape::shape_base::{Point, Shape};
use vstd::arithmetic::div_mod::{
    lemma_div_is_ordered, lemma_fundamental_div_mod_converse_div,
    lemma_fundamental_div_mod_converse_mod,
};
use vstd::prelude::*;

verus! {

/// The capability of populating a point cloud.  A generator's output is
/// a function of its state alone — `emit` — so generation is
/// deterministic: two runs on equal state append identical sequences.
pub trait ShapeGen {
    /// The generator's parameters are in range for sample generation.
    spec fn wf(&self) -> bool;

    /// What this generator promises of every sample it emits.
    spec fn point_ok(&self, p: Point) -> bool;

    /// The exact sample sequence one run of this generator emits.
    spec fn emit(&self) -> Seq<Point>;

    /// Appends exactly `emit` to the shape's cloud, each sample
    /// satisfying `point_ok`, with the samples already present kept
    /// unchanged.
    fn generate_shape(&self, shape: &mut Shape)
        requires
            self.wf(),
        ensures
            final(shape).points@ == old(shape).points@ + self.emit(),
            forall|i: int|
                old(shape).points@.len() <= i < final(shape).points@.len() ==> self.point_ok(
                    #[trigger] final(shape).points@[i],
                ),
    ;
}

/// How many equal steps of size `s`, starting at zero, lie strictly
/// inside a full turn: the index of the first multiple reaching it.
pub open spec fn full_turn_steps(s: int) -> int {
    tdiv(TWO_PI_FX as int - 1, s) + 1
}

/// At least one step fits in a full turn.
proof fn lemma_full_turn_steps_pos(s: int)
    requires
        1 <= s,
    ensures
        1 <= full_turn_steps(s),
{
    lemma_tdiv(TWO_PI_FX as int - 1, s);
}

/// A counter that stepped past the full turn counted exactly
/// `full_turn_steps` steps.
proof fn lemma_full_turn_steps(s: int, k: int)
    requires
        1 <= s,
        1 <= k,
        (k - 1) * s < TWO_PI_FX as int,
        TWO_PI_FX as int <= k * s,
    ensures
        k == full_turn_steps(s),
{
    let r = (TWO_PI_FX as int - 1) - (k - 1) * s;
    assert(0 <= r < s) by (nonlinear_arith)
        requires
            (k - 1) * s < TWO_PI_FX as int,
            TWO_PI_FX as int <= k * s,
            1 <= s,
            r == (TWO_PI_FX as int - 1) - (k - 1) * s,
    ;
    lemma_fundamental_div_mod_converse_div(TWO_PI_FX as int - 1, s, k - 1, r);
}

/// A row index whose angle is still inside the full turn lies strictly
/// below the row length.
proof fn lemma_row_in_turn(s: int, k: int)
    requires
        1 <= s,
        0 <= k,
        k * s < TWO_PI_FX as int,
    ensures
        k < full_turn_steps(s),
{
    lemma_tdiv_exact(k, s);
    assert(k * s >= 0) by (nonlinear_arith)
        requires
            k >= 0,
            s >= 1,
    ;
    lemma_div_is_ordered(k * s, TWO_PI_FX as int - 1, s);
}

/// The largest tube and ring radius the torus generator accepts.
pub open spec fn torus_limit() -> int {
    0x40000000
}

/// Upper bound, scaled by `SCALE` squared, on the squared distance of a
/// torus sample from the ring's axis: the square of `radius + thickness`
/// with the trigonometric and rounding tolerances added.
pub open spec fn ring_high(r: int, t: int) -> int {
    (r + t) * (r + t) * (sc() * sc() + 10 * sc() + 3) + 4 * ((r + t) * (sc() * sc())) + 2 * (sc()
        * sc())
}

/// Lower bound, scaled by `SCALE` squared, on the same squared distance:
/// the square of `radius - thickness` with the tolerances subtracted
/// (meaningful when the ring is wider than the tube).
pub open spec fn ring_low(r: int, t: int) -> int {
    (r - t) * (r - t) * (sc() * sc() - 6 * sc()) - 4 * ((r + t) * (sc() * sc()))
}

/// The sample a torus generator emits for one cosine/sine pair of the
/// major angle and one of the minor angle, exactly as the executable
/// generator computes it: position `(T cos b, (R + T sin b) cos a,
/// (R + T sin b) sin a)` and normal `(cos b, sin b cos a, sin b sin a)`
/// in truncating fixed point.
pub open spec fn torus_point_spec(g: TorusGenerator, ca: int, sa: int, cb: int, sb: int) -> Point {
    let ring = g.radius@ + fxmul(g.thickness@, sb);
    Point {
        rel_coord: Coord {
            x: Fx { raw: fxmul(g.thickness@, cb) as i64 },
            y: Fx { raw: fxmul(ring, ca) as i64 },
            z: Fx { raw: fxmul(ring, sa) as i64 },
        },
        normal: Vector3D {
            x: Fx { raw: cb as i64 },
            y: Fx { raw: fxmul(sb, ca) as i64 },
            z: Fx { raw: fxmul(sb, sa) as i64 },
        },
    }
}

/// Emits one sample per pair of major and minor angle, stepping both by
/// `angle_iter` over a full turn: a ring of radius `radius` around the X
/// axis, swept by a tube of radius `thickness`.
pub struct TorusGenerator {
    pub thickness: Fx,
    pub radius: Fx,
    pub angle_iter: (Fx, Fx),
}

impl TorusGenerator {
    /// The sample of the `i`-th major and `j`-th minor angle step: the
    /// formula evaluated at the computed cosine/sine pairs of `i` and `j`
    /// steps.
    pub open spec fn torus_sample(&self, i: int, j: int) -> Point {
        let csa = cos_sin_spec(i * self.angle_iter.0@);
        let csb = cos_sin_spec(j * self.angle_iter.1@);
        torus_point_spec(*self, csa.0, csa.1, csb.0, csb.1)
    }

    /// A torus of tube radius `thickness` and ring radius `size`, sampled
    /// at the default angular step.
    pub fn new(thickness: Fx, size: Fx) -> (r: TorusGenerator)
        ensures
            r.thickness == thickness,
            r.radius == size,
            r.angle_iter.0@ == 2621 && r.angle_iter.1@ == 2621,
    {
        TorusGenerator {
            thickness,
            radius: size,
            angle_iter: (Fx { raw: 2621 }, Fx { raw: 2621 }),
        }
    }
}

impl ShapeGen for TorusGenerator {
    /// Non-negative radii in range, and positive angular steps.
    open spec fn wf(&self) -> bool {
        &&& 0 <= self.thickness@ <= torus_limit()
        &&& 0 <= self.radius@ <= torus_limit()
        &&& 1 <= self.angle_iter.0@ <= vlim()
        &&& 1 <= self.angle_iter.1@ <= vlim()
    }

    /// One sample per pair of major and minor steps across a full turn,
    /// in row-major order of (major step, minor step).
    open spec fn emit(&self) -> Seq<Point> {
        let nb = full_turn_steps(self.angle_iter.1@);
        Seq::new(
            (full_turn_steps(self.angle_iter.0@) * nb) as nat,
            |t: int| self.torus_sample(t / nb, t % nb),
        )
    }

    /// The sample sits within `thickness` of the ring plane along X, its
    /// squared distance from the ring's axis lies between `ring_low` and
    /// `ring_high`, and its normal is one unit long within the stated
    /// tolerance.
    open spec fn point_ok(&self, p: Point) -> bool {
        let dd = p.rel_coord.y@ * p.rel_coord.y@ + p.rel_coord.z@ * p.rel_coord.z@;
        let nsq = p.normal.x@ * p.normal.x@ + p.normal.y@ * p.normal.y@ + p.normal.z@
            * p.normal.z@;
        &&& p.is_bounded(0x100000000)
        &&& bounded(p.rel_coord.x@, self.thickness@)
        &&& p.normal.is_bounded(sc())
        &&& 0xFFE0000000000000 <= sc() * sc() * nsq <= 0x10020000000000000
        &&& sc() * sc() * dd <= ring_high(self.radius@, self.thickness@)
        &&& self.radius@ >= self.thickness@ ==> sc() * sc() * dd >= ring_low(
            self.radius@,
            self.thickness@,
        )
    }

    fn generate_shape(&self, shape: &mut Shape) {
        let step_a: Ghost<int> = Ghost(self.angle_iter.0@);
        let step_b: Ghost<int> = Ghost(self.angle_iter.1@);
        let ghost mut gi: int = 0;
        proof {
            lemma_full_turn_steps_pos(step_b@);
        }
        let mut a = Fx { raw: 0 };
        while a.raw < TWO_PI_FX
            invariant
                self.wf(),
                step_a@ == self.angle_iter.0@,
                step_b@ == self.angle_iter.1@,
                0 <= a.raw <= TWO_PI_FX + vlim(),
                0 <= gi,
                1 <= full_turn_steps(step_b@),
                0 <= gi * full_turn_steps(step_b@),
                a.raw as int == gi * step_a@,
                gi >= 1 ==> (gi - 1) * step_a@ < TWO_PI_FX as int,
                shape.points@.len() == old(shape).points@.len() + gi * full_turn_steps(step_b@),
                forall|i: int|
                    0 <= i < old(shape).points@.len() ==> shape.points@[i] == old(
                        shape,
                    ).points@[i],
                forall|i: int|
                    old(shape).points@.len() <= i < shape.points@.len() ==> self.point_ok(
                        #[trigger] shape.points@[i],
                    ),
                forall|k: int|
                    old(shape).points@.len() <= k < shape.points@.len() ==> (
                    #[trigger] shape.points@[k]) == ({
                        let t = k - old(shape).points@.len();
                        let nb = full_turn_steps(step_b@);
                        self.torus_sample(t / nb, t % nb)
                    }),
            decreases TWO_PI_FX + vlim() - a.raw,
        {
            let csa = cos_sin(a);
            let cos_a = csa.0;
            let sin_a = csa.1;
            let ghost mut gj: int = 0;
            let mut b = Fx { raw: 0 };
            while b.raw < TWO_PI_FX
                invariant
                    self.wf(),
                    step_b@ == self.angle_iter.1@,
                    0 <= b.raw <= TWO_PI_FX + vlim(),
                    0 <= gj,
                    1 <= full_turn_steps(step_b@),
                    0 <= gi * full_turn_steps(step_b@),
                    b.raw as int == gj * step_b@,
                    gj >= 1 ==> (gj - 1) * step_b@ < TWO_PI_FX as int,
                    bounded(cos_a@, sc()),
                    bounded(sin_a@, sc()),
                    cos_a@ * cos_a@ + sin_a@ * sin_a@ >= sc() * sc() - 6 * sc(),
                    cos_a@ * cos_a@ + sin_a@ * sin_a@ <= sc() * sc() + 10 * sc() + 3,
                    shape.points@.len() == old(shape).points@.len() + gi * full_turn_steps(
                        step_b@,
                    ) + gj,
                    step_a@ == self.angle_iter.0@,
                    0 <= gi,
                    a.raw as int == gi * step_a@,
                    cos_a@ == cos_sin_spec(gi * step_a@).0,
                    sin_a@ == cos_sin_spec(gi * step_a@).1,
                    forall|i: int|
                        0 <= i < old(shape).points@.len() ==> shape.points@[i] == old(
                            shape,
                        ).points@[i],
                    forall|i: int|
                        old(shape).points@.len() <= i < shape.points@.len() ==> self.point_ok(
                            #[trigger] shape.points@[i],
                        ),
                    forall|k: int|
                        old(shape).points@.len() <= k < shape.points@.len() ==> (
                        #[trigger] shape.points@[k]) == ({
                            let t = k - old(shape).points@.len();
                            let nb = full_turn_steps(step_b@);
                            self.torus_sample(t / nb, t % nb)
                        }),
                decreases TWO_PI_FX + vlim() - b.raw,
            {
                let csb = cos_sin(b);
                let cos_b = csb.0;
                let sin_b = csb.1;
                let new_point = self.torus_point(cos_a, sin_a, cos_b, sin_b);
                proof {
                    lemma_row_in_turn(step_b@, gj);
                    let nb = full_turn_steps(step_b@);
                    let t = gi * nb + gj;
                    assert(t >= 0);
                    lemma_fundamental_div_mod_converse_div(t, nb, gi, gj);
                    lemma_fundamental_div_mod_converse_mod(t, nb, gi, gj);
                    assert(t / nb == gi && t % nb == gj);
                    assert(new_point == self.torus_sample(gi, gj));
                }
                shape.points.push(new_point);
                proof {
                    // The positive step bound drives the decreases check.
                    assert(self.angle_iter.1@ >= 1);
                    assert((gj + 1) * step_b@ == gj * step_b@ + step_b@) by (nonlinear_arith);
                    gj = gj + 1;
                }
                b = Fx { raw: b.raw + self.angle_iter.1.raw };
            }
            proof {
                // The positive step bound drives the decreases check.
                assert(self.angle_iter.0@ >= 1);
                if gj == 0 {
                    assert(0 * step_b@ == 0) by (nonlinear_arith);
                    assert(false);
                }
                lemma_full_turn_steps(step_b@, gj);
                assert((gi + 1) * step_a@ == gi * step_a@ + step_a@) by (nonlinear_arith);
                assert((gi + 1) * full_turn_steps(step_b@) == gi * full_turn_steps(step_b@)
                    + full_turn_steps(step_b@)) by (nonlinear_arith);
                assert(0 <= (gi + 1) * full_turn_steps(step_b@)) by (nonlinear_arith)
                    requires
                        0 <= gi + 1,
                        1 <= full_turn_steps(step_b@),
                ;
                gi = gi + 1;
            }
            a = Fx { raw: a.raw + self.angle_iter.0.raw };
        }
        proof {
            if gi == 0 {
                assert(0 * step_a@ == 0) by (nonlinear_arith);
                assert(false);
            }
            lemma_full_turn_steps(step_a@, gi);
            assert(shape.points@ =~= old(shape).points@ + self.emit());
        }
    }
}

impl TorusGenerator {
    /// The sample for one pair of major-angle and minor-angle cosine and
    /// sine values.
    fn torus_point(&self, cos_a: Fx, sin_a: Fx, cos_b: Fx, sin_b: Fx) -> (p: Point)
        requires
            self.wf(),
            bounded(cos_a@, sc()),
            bounded(sin_a@, sc()),
            bounded(cos_b@, sc()),
            bounded(sin_b@, sc()),
            cos_a@ * cos_a@ + sin_a@ * sin_a@ >= sc() * sc() - 6 * sc(),
            cos_a@ * cos_a@ + sin_a@ * sin_a@ <= sc() * sc() + 10 * sc() + 3,
            cos_b@ * cos_b@ + sin_b@ * sin_b@ >= sc() * sc() - 6 * sc(),
            cos_b@ * cos_b@ + sin_b@ * sin_b@ <= sc() * sc() + 10 * sc() + 3,
        ensures
            self.point_ok(p),
            p == torus_point_spec(*self, cos_a@, sin_a@, cos_b@, sin_b@),
    {
        let tt = self.thickness;
        let rr = self.radius;
        proof {
            lemma_mul_bound(tt@, cos_b@, tt@, sc());
            lemma_tdiv_mag(tt@ * cos_b@, sc(), tt@);
            lemma_mul_bound(tt@, sin_b@, tt@, sc());
            lemma_tdiv_mag(tt@ * sin_b@, sc(), tt@);
        }
        let point_x = tt.mul(cos_b);
        let tube = tt.mul(sin_b);
        let ring = rr.add(tube);
        proof {
            lemma_mul_bound(ring@, cos_a@, 0x80000000, sc());
            lemma_tdiv_mag(ring@ * cos_a@, sc(), 0x80000000);
            lemma_mul_bound(ring@, sin_a@, 0x80000000, sc());
            lemma_tdiv_mag(ring@ * sin_a@, sc(), 0x80000000);
        }
        let point_y = ring.mul(cos_a);
        let point_z = ring.mul(sin_a);
        let point_coord = Coord::new(point_x, point_y, point_z);
        proof {
            lemma_mul_bound(sin_b@, cos_a@, sc(), sc());
            lemma_tdiv_mag(sin_b@ * cos_a@, sc(), sc());
            lemma_mul_bound(sin_b@, sin_a@, sc(), sc());
            lemma_tdiv_mag(sin_b@ * sin_a@, sc(), sc());
        }
        let normal_x = cos_b;
        let normal_y = sin_b.mul(cos_a);
        let normal_z = sin_b.mul(sin_a);
        proof {
            if normal_x.raw == 0 && normal_y.raw == 0 && normal_z.raw == 0 {
                lemma_torus_normal_nonzero(cos_b@, sin_b@, cos_a@, sin_a@);
            }
            lemma_ring_bounds(ring@, cos_a@, sin_a@, point_y@, point_z@, rr@, tt@);
            lemma_normal_bounds(cos_b@, sin_b@, cos_a@, sin_a@, normal_y@, normal_z@);
        }
        let normal = Vector3D::new(normal_x, normal_y, normal_z);
        Point::new(point_coord, normal)
    }
}

/// A trigonometric pair for one angle cannot be annihilated by a second
/// pair: if the cosine is zero and both scaled products with the second
/// pair truncate to zero, the two unit-length constraints contradict each
/// other.
proof fn lemma_torus_normal_nonzero(cb: int, sb: int, ca: int, sa: int)
    requires
        cb == 0,
        cb * cb + sb * sb >= sc() * sc() - 6 * sc(),
        ca * ca + sa * sa >= sc() * sc() - 6 * sc(),
    ensures
        tdiv(sb * ca, sc()) != 0 || tdiv(sb * sa, sc()) != 0,
{
    if tdiv(sb * ca, sc()) == 0 && tdiv(sb * sa, sc()) == 0 {
        lemma_tdiv(sb * ca, sc());
        lemma_tdiv(sb * sa, sc());
        assert(bounded(sb * ca, sc()) && bounded(sb * sa, sc()));
        assert((sb * ca) * (sb * ca) <= sc() * sc() && (sb * sa) * (sb * sa) <= sc() * sc())
            by (nonlinear_arith)
            requires
                -65536 <= sb * ca <= 65536,
                -65536 <= sb * sa <= 65536,
        ;
        lemma_mul_shuffle(sb, ca, sb, ca);
        lemma_mul_shuffle(sb, sa, sb, sa);
        lemma_dist2_l(sb * sb, ca * ca, sa * sa);
        assert((sb * sb) * (ca * ca + sa * sa) >= (sc() * sc() - 6 * sc()) * (sc() * sc() - 6
            * sc())) by (nonlinear_arith)
            requires
                sb * sb >= sc() * sc() - 6 * sc(),
                ca * ca + sa * sa >= sc() * sc() - 6 * sc(),
                sc() == 65536,
        ;
        assert((sc() * sc() - 6 * sc()) * (sc() * sc() - 6 * sc()) > 2 * (sc() * sc()))
            by (nonlinear_arith)
            requires
                sc() == 65536,
        ;
    }
}

/// A rotated trigonometric pair keeps the torus normal one unit long
/// within tolerance: the squared norm of (cb, sb*ca/S, sb*sa/S), scaled
/// by `SCALE` squared, stays within `2^53` of `SCALE` to the fourth.
#[verifier::rlimit(50)]
proof fn lemma_normal_bounds(cb: int, sb: int, ca: int, sa: int, ny: int, nz: int)
    requires
        bounded(cb, sc()),
        bounded(sb, sc()),
        bounded(ca, sc()),
        bounded(sa, sc()),
        cb * cb + sb * sb >= sc() * sc() - 6 * sc(),
        cb * cb + sb * sb <= sc() * sc() + 10 * sc() + 3,
        ca * ca + sa * sa >= sc() * sc() - 6 * sc(),
        ca * ca + sa * sa <= sc() * sc() + 10 * sc() + 3,
        ny == tdiv(sb * ca, sc()),
        nz == tdiv(sb * sa, sc()),
    ensures
        0xFFE0000000000000 <= sc() * sc() * (cb * cb + ny * ny + nz * nz)
            <= 0x10020000000000000,
{
    lemma_tdiv(sb * ca, sc());
    lemma_tdiv(sb * sa, sc());
    let e1 = sb * ca - sc() * ny;
    let e2 = sb * sa - sc() * nz;
    let k = ca * ca + sa * sa;
    let s2 = sb * sb;
    assert(sc() * sc() * (cb * cb + ny * ny + nz * nz) == sc() * sc() * (cb * cb) + (sb * ca
        - e1) * (sb * ca - e1) + (sb * sa - e2) * (sb * sa - e2)) by (nonlinear_arith)
        requires
            e1 == sb * ca - sc() * ny,
            e2 == sb * sa - sc() * nz,
            sc() == 65536,
    ;
    lemma_sq_diff(sb * ca, e1);
    lemma_sq_diff(sb * sa, e2);
    lemma_mul_shuffle(sb, ca, sb, ca);
    lemma_mul_shuffle(sb, sa, sb, sa);
    lemma_dist2_l(s2, ca * ca, sa * sa);
    lemma_mul_bound(sb, ca, sc(), sc());
    lemma_mul_bound(sb, sa, sc(), sc());
    assert(bounded(2 * ((sb * ca) * e1), 2 * (sc() * (sc() * sc()))) && bounded(
        2 * ((sb * sa) * e2),
        2 * (sc() * (sc() * sc())),
    ) && 0 <= e1 * e1 <= sc() * sc() && 0 <= e2 * e2 <= sc() * sc()) by (nonlinear_arith)
        requires
            -(sc() * sc()) <= sb * ca <= sc() * sc(),
            -(sc() * sc()) <= sb * sa <= sc() * sc(),
            -65536 < e1 < 65536,
            -65536 < e2 < 65536,
            sc() == 65536,
    ;
    assert(0 <= s2 <= sc() * sc() && 0 <= k) by (nonlinear_arith)
        requires
            s2 == sb * sb,
            -65536 <= sb <= 65536,
            k >= sc() * sc() - 6 * sc(),
            sc() == 65536,
    ;
    assert(s2 * (sc() * sc() - 6 * sc()) <= s2 * k <= s2 * (sc() * sc() + 10 * sc() + 3))
        by (nonlinear_arith)
        requires
            0 <= s2,
            sc() * sc() - 6 * sc() <= k <= sc() * sc() + 10 * sc() + 3,
    ;
    assert(s2 * (sc() * sc() + 10 * sc() + 3) == s2 * (sc() * sc()) + s2 * (10 * sc() + 3)
        && s2 * (sc() * sc() - 6 * sc()) == s2 * (sc() * sc()) - s2 * (6 * sc()))
        by (nonlinear_arith);
    assert(sc() * sc() * (cb * cb) + s2 * (sc() * sc()) == (cb * cb + s2) * (sc() * sc()))
        by (nonlinear_arith);
    assert(0 <= s2 * (10 * sc() + 3) <= (sc() * sc()) * (10 * sc() + 3) && 0 <= s2 * (6 * sc())
        <= (sc() * sc()) * (6 * sc())) by (nonlinear_arith)
        requires
            0 <= s2 <= sc() * sc(),
            sc() == 65536,
    ;
    assert((sc() * sc() - 6 * sc()) * (sc() * sc()) <= (cb * cb + s2) * (sc() * sc()) <= (sc()
        * sc() + 10 * sc() + 3) * (sc() * sc())) by (nonlinear_arith)
        requires
            sc() * sc() - 6 * sc() <= cb * cb + s2 <= sc() * sc() + 10 * sc() + 3,
            sc() == 65536,
    ;
    assert((sc() * sc() - 6 * sc()) * (sc() * sc()) - (sc() * sc()) * (6 * sc()) - 2 * (2 * (sc()
        * (sc() * sc()))) >= 0xFFE0000000000000 && (sc() * sc() + 10 * sc() + 3) * (sc() * sc())
        + (sc() * sc()) * (10 * sc() + 3) + 2 * (2 * (sc() * (sc() * sc()))) + 2 * (sc() * sc())
        <= 0x10020000000000000) by (nonlinear_arith)
        requires
            sc() == 65536,
    ;
}

/// The distance bounds for one torus sample: with the ring factor between
/// `rr - tt` and `rr + tt` and a unit-length trigonometric pair, the
/// scaled squared distance from the axis lies between `ring_low` and
/// `ring_high`.
proof fn lemma_ring_bounds(mm: int, ca: int, sa: int, y: int, z: int, rr: int, tt: int)
    requires
        rr - tt <= mm <= rr + tt,
        0 <= tt <= torus_limit(),
        0 <= rr <= torus_limit(),
        bounded(ca, sc()),
        bounded(sa, sc()),
        ca * ca + sa * sa >= sc() * sc() - 6 * sc(),
        ca * ca + sa * sa <= sc() * sc() + 10 * sc() + 3,
        y == tdiv(mm * ca, sc()),
        z == tdiv(mm * sa, sc()),
    ensures
        sc() * sc() * (y * y + z * z) <= ring_high(rr, tt),
        rr >= tt ==> sc() * sc() * (y * y + z * z) >= ring_low(rr, tt),
{
    lemma_tdiv(mm * ca, sc());
    lemma_tdiv(mm * sa, sc());
    let e1 = mm * ca - sc() * y;
    let e2 = mm * sa - sc() * z;
    let k = ca * ca + sa * sa;
    let m2 = mm * mm;
    assert(0 <= k) by (nonlinear_arith)
        requires
            k >= sc() * sc() - 6 * sc(),
            sc() == 65536,
    ;
    assert(sc() * sc() * (y * y + z * z) == (mm * ca - e1) * (mm * ca - e1) + (mm * sa - e2) * (mm
        * sa - e2)) by (nonlinear_arith)
        requires
            e1 == mm * ca - sc() * y,
            e2 == mm * sa - sc() * z,
            sc() == 65536,
    ;
    lemma_sq_diff(mm * ca, e1);
    lemma_sq_diff(mm * sa, e2);
    lemma_mul_shuffle(mm, ca, mm, ca);
    lemma_mul_shuffle(mm, sa, mm, sa);
    lemma_dist2_l(m2, ca * ca, sa * sa);
    assert(m2 * k <= ((rr + tt) * (rr + tt)) * k && m2 >= 0 && (rr >= tt ==> m2 * k >= ((rr - tt)
        * (rr - tt)) * k)) by (nonlinear_arith)
        requires
            rr - tt <= mm <= rr + tt,
            0 <= tt,
            0 <= rr,
            m2 == mm * mm,
            0 <= k,
    ;
    assert(((rr + tt) * (rr + tt)) * k <= ((rr + tt) * (rr + tt)) * (sc() * sc() + 10 * sc() + 3)
        && (rr >= tt ==> ((rr - tt) * (rr - tt)) * k >= ((rr - tt) * (rr - tt)) * (sc() * sc() - 6
        * sc()))) by (nonlinear_arith)
        requires
            sc() * sc() - 6 * sc() <= k <= sc() * sc() + 10 * sc() + 3,
            rr >= tt ==> (rr - tt) * (rr - tt) >= 0,
            (rr + tt) * (rr + tt) >= 0,
            sc() == 65536,
    ;
    assert((rr + tt) * (rr + tt) >= 0 && (rr - tt) * (rr - tt) >= 0) by (nonlinear_arith);
    assert(bounded(2 * ((mm * ca) * e1), 2 * ((rr + tt) * (sc() * sc()))) && bounded(
        2 * ((mm * sa) * e2),
        2 * ((rr + tt) * (sc() * sc())),
    ) && 0 <= e1 * e1 <= sc() * sc() && 0 <= e2 * e2 <= sc() * sc()) by (nonlinear_arith)
        requires
            rr - tt <= mm <= rr + tt,
            0 <= tt,
            0 <= rr,
            -65536 <= ca <= 65536,
            -65536 <= sa <= 65536,
            -65536 < e1 < 65536,
            -65536 < e2 < 65536,
            sc() == 65536,
    ;
}

/// Emits a regular grid of samples on each of the six axis-aligned faces
/// of a box with the given extents, spaced `node_dis` apart; each
/// sample's normal is its face's outward unit axis.
pub struct CubeGenerator {
    pub x: Fx,
    pub y: Fx,
    pub z: Fx,
    pub node_dis: Fx,
}

impl CubeGenerator {
    /// A box with the given extents, sampled one unit apart.
    pub fn new(x: Fx, y: Fx, z: Fx) -> (r: CubeGenerator)
        ensures
            r.x == x && r.y == y && r.z == z,
            r.node_dis@ == sc(),
    {
        CubeGenerator { x, y, z, node_dis: Fx { raw: SCALE } }
    }
}

impl ShapeGen for CubeGenerator {
    /// Extents in range and at least one sample step along each axis.
    open spec fn wf(&self) -> bool {
        &&& 1 <= self.node_dis@
        &&& 0 < self.x@ <= 0x40000000
        &&& 0 < self.y@ <= 0x40000000
        &&& 0 < self.z@ <= 0x40000000
        &&& 1 <= tdiv(self.x@, self.node_dis@)
        &&& 1 <= tdiv(self.y@, self.node_dis@)
        &&& 1 <= tdiv(self.z@, self.node_dis@)
    }

    /// The six faces' grids, emitted face by face.
    open spec fn emit(&self) -> Seq<Point> {
        self.seq_through_face(6)
    }

    /// The sample lies on one of the six faces: the coordinate along that
    /// face's axis is exactly half the extent, with that sign, and the
    /// normal is the face's outward unit direction.
    open spec fn point_ok(&self, p: Point) -> bool {
        let ex = tdiv(self.x@, 2);
        let ey = tdiv(self.y@, 2);
        let ez = tdiv(self.z@, 2);
        &&& p.is_bounded(0x100000000)
        &&& bounded(p.rel_coord.x@, tdiv(self.x@, 2))
        &&& bounded(p.rel_coord.y@, tdiv(self.y@, 2))
        &&& bounded(p.rel_coord.z@, tdiv(self.z@, 2))
        &&& {
            ||| (p.rel_coord.x@ == ex && p.normal.x@ == sc() && p.normal.y@ == 0 && p.normal.z@
                == 0)
            ||| (p.rel_coord.x@ == -ex && p.normal.x@ == -sc() && p.normal.y@ == 0 && p.normal.z@
                == 0)
            ||| (p.rel_coord.y@ == ey && p.normal.x@ == 0 && p.normal.y@ == sc() && p.normal.z@
                == 0)
            ||| (p.rel_coord.y@ == -ey && p.normal.x@ == 0 && p.normal.y@ == -sc()
                && p.normal.z@ == 0)
            ||| (p.rel_coord.z@ == ez && p.normal.x@ == 0 && p.normal.y@ == 0 && p.normal.z@
                == sc())
            ||| (p.rel_coord.z@ == -ez && p.normal.x@ == 0 && p.normal.y@ == 0 && p.normal.z@
                == -sc())
        }
    }

    fn generate_shape(&self, shape: &mut Shape) {
        let mut face: u8 = 0;
        while face < 6
            invariant
                self.wf(),
                face <= 6,
                shape.points@ == old(shape).points@ + self.seq_through_face(face as int),
                forall|i: int|
                    0 <= i < old(shape).points@.len() ==> shape.points@[i] == old(
                        shape,
                    ).points@[i],
                forall|i: int|
                    old(shape).points@.len() <= i < shape.points@.len() ==> self.point_ok(
                        #[trigger] shape.points@[i],
                    ),
            decreases 6 - face,
        {
            self.gen_face(shape, face);
            proof {
                assert(shape.points@ =~= old(shape).points@ + self.seq_through_face(
                    face as int + 1,
                ));
            }
            face = face + 1;
        }
    }
}

impl CubeGenerator {
    /// One face's grid of samples, in emission order: the first index
    /// walks the face's first extent, the second its other extent.
    pub open spec fn face_seq(&self, face: u8) -> Seq<Point> {
        let e = self.face_extents(face);
        let n1 = tdiv(e.0, self.node_dis@);
        let n2 = tdiv(e.1, self.node_dis@);
        Seq::new(
            ((n1 - 1) * (n2 - 1)) as nat,
            |t: int| self.cube_point_spec(face, t / (n2 - 1), t % (n2 - 1)),
        )
    }

    /// The samples of the faces before `face`, in emission order.
    pub open spec fn seq_through_face(&self, face: int) -> Seq<Point>
        decreases face,
    {
        if face <= 0 {
            Seq::empty()
        } else {
            self.seq_through_face(face - 1) + self.face_seq((face - 1) as u8)
        }
    }

    /// The sample of one grid cell of one face, exactly as the executable
    /// generator computes it: the face's axis coordinate at the signed
    /// half-extent, the outward unit normal, and the in-plane coordinates
    /// stepped down from the half-extents.
    pub open spec fn cube_point_spec(&self, face: u8, i1: int, i2: int) -> Point {
        let ex = tdiv(self.x@, 2);
        let ey = tdiv(self.y@, 2);
        let ez = tdiv(self.z@, 2);
        let o1 = i1 * self.node_dis@;
        let o2 = i2 * self.node_dis@;
        if face == 0 {
            Point {
                rel_coord: Coord {
                    x: Fx { raw: ex as i64 },
                    y: Fx { raw: (ey - o2) as i64 },
                    z: Fx { raw: (ez - o1) as i64 },
                },
                normal: Vector3D { x: Fx { raw: SCALE }, y: Fx { raw: 0 }, z: Fx { raw: 0 } },
            }
        } else if face == 1 {
            Point {
                rel_coord: Coord {
                    x: Fx { raw: (-ex) as i64 },
                    y: Fx { raw: (ey - o2) as i64 },
                    z: Fx { raw: (ez - o1) as i64 },
                },
                normal: Vector3D { x: Fx { raw: (-SCALE) as i64 }, y: Fx { raw: 0 }, z: Fx { raw: 0 } },
            }
        } else if face == 2 {
            Point {
                rel_coord: Coord {
                    x: Fx { raw: (ex - o2) as i64 },
                    y: Fx { raw: ey as i64 },
                    z: Fx { raw: (ez - o1) as i64 },
                },
                normal: Vector3D { x: Fx { raw: 0 }, y: Fx { raw: SCALE }, z: Fx { raw: 0 } },
            }
        } else if face == 3 {
            Point {
                rel_coord: Coord {
                    x: Fx { raw: (ex - o2) as i64 },
                    y: Fx { raw: (-ey) as i64 },
                    z: Fx { raw: (ez - o1) as i64 },
                },
                normal: Vector3D { x: Fx { raw: 0 }, y: Fx { raw: (-SCALE) as i64 }, z: Fx { raw: 0 } },
            }
        } else if face == 4 {
            Point {
                rel_coord: Coord {
                    x: Fx { raw: (ex - o2) as i64 },
                    y: Fx { raw: (ey - o1) as i64 },
                    z: Fx { raw: ez as i64 },
                },
                normal: Vector3D { x: Fx { raw: 0 }, y: Fx { raw: 0 }, z: Fx { raw: SCALE } },
            }
        } else {
            Point {
                rel_coord: Coord {
                    x: Fx { raw: (ex - o2) as i64 },
                    y: Fx { raw: (ey - o1) as i64 },
                    z: Fx { raw: (-ez) as i64 },
                },
                normal: Vector3D { x: Fx { raw: 0 }, y: Fx { raw: 0 }, z: Fx { raw: (-SCALE) as i64 } },
            }
        }
    }

    /// The two in-plane extents of a face: faces along X vary over (y, z),
    /// faces along Y over (x, z), faces along Z over (x, y).
    pub open spec fn face_extents(&self, face: u8) -> (int, int) {
        if face == 0 || face == 1 {
            (self.z@, self.y@)
        } else if face == 2 || face == 3 {
            (self.z@, self.x@)
        } else {
            (self.y@, self.x@)
        }
    }

    /// One grid sample of one face.
    fn cube_point(&self, face: u8, i1: i64, i2: i64) -> (p: Point)
        requires
            self.wf(),
            face < 6,
            0 <= i1 <= tdiv(self.face_extents(face).0, self.node_dis@) - 2,
            0 <= i2 <= tdiv(self.face_extents(face).1, self.node_dis@) - 2,
        ensures
            self.point_ok(p),
            p == self.cube_point_spec(face, i1 as int, i2 as int),
    {
        let edge_x = Fx { raw: self.x.raw / 2 };
        let edge_y = Fx { raw: self.y.raw / 2 };
        let edge_z = Fx { raw: self.z.raw / 2 };
        proof {
            lemma_tdiv(self.x@, 2);
            lemma_tdiv(self.y@, 2);
            lemma_tdiv(self.z@, 2);
            lemma_grid_offset(i1 as int, self.face_extents(face).0, self.node_dis@);
            lemma_grid_offset(i2 as int, self.face_extents(face).1, self.node_dis@);
        }
        let off1 = Fx { raw: i1 * self.node_dis.raw };
        let off2 = Fx { raw: i2 * self.node_dis.raw };
        let one = Fx { raw: SCALE };
        if face == 0 {
            let normal = Vector3D::new(one, Fx { raw: 0 }, Fx { raw: 0 });
            let coord = Coord::new(edge_x, Fx { raw: edge_y.raw - off2.raw }, Fx { raw: edge_z.raw - off1.raw });
            Point::new(coord, normal)
        } else if face == 1 {
            let normal = Vector3D::new(Fx { raw: -SCALE }, Fx { raw: 0 }, Fx { raw: 0 });
            let coord = Coord::new(Fx { raw: -edge_x.raw }, Fx { raw: edge_y.raw - off2.raw }, Fx { raw: edge_z.raw - off1.raw });
            Point::new(coord, normal)
        } else if face == 2 {
            let normal = Vector3D::new(Fx { raw: 0 }, one, Fx { raw: 0 });
            let coord = Coord::new(Fx { raw: edge_x.raw - off2.raw }, edge_y, Fx { raw: edge_z.raw - off1.raw });
            Point::new(coord, normal)
        } else if face == 3 {
            let normal = Vector3D::new(Fx { raw: 0 }, Fx { raw: -SCALE }, Fx { raw: 0 });
            let coord = Coord::new(Fx { raw: edge_x.raw - off2.raw }, Fx { raw: -edge_y.raw }, Fx { raw: edge_z.raw - off1.raw });
            Point::new(coord, normal)
        } else if face == 4 {
            let normal = Vector3D::new(Fx { raw: 0 }, Fx { raw: 0 }, one);
            let coord = Coord::new(Fx { raw: edge_x.raw - off2.raw }, Fx { raw: edge_y.raw - off1.raw }, edge_z);
            Point::new(coord, normal)
        } else {
            let normal = Vector3D::new(Fx { raw: 0 }, Fx { raw: 0 }, Fx { raw: -SCALE });
            let coord = Coord::new(Fx { raw: edge_x.raw - off2.raw }, Fx { raw: edge_y.raw - off1.raw }, Fx { raw: -edge_z.raw });
            Point::new(coord, normal)
        }
    }

    /// Appends one face's grid of samples.
    fn gen_face(&self, shape: &mut Shape, face: u8)
        requires
            self.wf(),
            face < 6,
        ensures
            final(shape).points@ == old(shape).points@ + self.face_seq(face),
            forall|i: int|
                old(shape).points@.len() <= i < final(shape).points@.len() ==> self.point_ok(
                    #[trigger] final(shape).points@[i],
                ),
    {
        let (e1, e2) = if face < 2 {
            (self.z, self.y)
        } else if face < 4 {
            (self.z, self.x)
        } else {
            (self.y, self.x)
        };
        let n1: i64 = e1.raw / self.node_dis.raw;
        let n2: i64 = e2.raw / self.node_dis.raw;
        let mut i1: i64 = 0;
        while i1 < n1 - 1
            invariant
                self.wf(),
                face < 6,
                0 <= i1 <= n1 - 1,
                1 <= n1,
                1 <= n2,
                0 <= i1 * (n2 - 1),
                n1 == tdiv(self.face_extents(face).0, self.node_dis@),
                n2 == tdiv(self.face_extents(face).1, self.node_dis@),
                shape.points@.len() == old(shape).points@.len() + i1 * (n2 - 1),
                forall|k: int|
                    old(shape).points@.len() <= k < shape.points@.len() ==> (
                    #[trigger] shape.points@[k]) == ({
                        let t = k - old(shape).points@.len();
                        self.cube_point_spec(face, t / (n2 - 1), t % (n2 - 1))
                    }),
                forall|i: int|
                    0 <= i < old(shape).points@.len() ==> shape.points@[i] == old(
                        shape,
                    ).points@[i],
                forall|i: int|
                    old(shape).points@.len() <= i < shape.points@.len() ==> self.point_ok(
                        #[trigger] shape.points@[i],
                    ),
            decreases n1 - i1,
        {
            let mut i2: i64 = 0;
            while i2 < n2 - 1
                invariant
                    self.wf(),
                    face < 6,
                    0 <= i1 <= n1 - 2,
                    0 <= i2 <= n2 - 1,
                    1 <= n2,
                    0 <= i1 * (n2 - 1),
                    n1 == tdiv(self.face_extents(face).0, self.node_dis@),
                    n2 == tdiv(self.face_extents(face).1, self.node_dis@),
                    shape.points@.len() == old(shape).points@.len() + i1 * (n2 - 1) + i2,
                    forall|k: int|
                        old(shape).points@.len() <= k < shape.points@.len() ==> (
                        #[trigger] shape.points@[k]) == ({
                            let t = k - old(shape).points@.len();
                            self.cube_point_spec(face, t / (n2 - 1), t % (n2 - 1))
                        }),
                    forall|i: int|
                        0 <= i < old(shape).points@.len() ==> shape.points@[i] == old(
                            shape,
                        ).points@[i],
                    forall|i: int|
                        old(shape).points@.len() <= i < shape.points@.len() ==> self.point_ok(
                            #[trigger] shape.points@[i],
                        ),
                decreases n2 - i2,
            {
                let p = self.cube_point(face, i1, i2);
                proof {
                    let t = i1 as int * (n2 as int - 1) + i2 as int;
                    lemma_fundamental_div_mod_converse_div(t, n2 as int - 1, i1 as int, i2 as int);
                    lemma_fundamental_div_mod_converse_mod(t, n2 as int - 1, i1 as int, i2 as int);
                }
                shape.points.push(p);
                i2 = i2 + 1;
            }
            proof {
                assert((i1 + 1) * (n2 - 1) == i1 * (n2 - 1) + (n2 - 1)) by (nonlinear_arith);
                assert(0 <= (i1 + 1) * (n2 - 1)) by (nonlinear_arith)
                    requires
                        0 <= i1 + 1,
                        1 <= n2,
                ;
            }
            i1 = i1 + 1;
        }
        proof {
            assert(shape.points@ =~= old(shape).points@ + self.face_seq(face));
        }
    }
}

/// An interior grid index times the spacing stays two spacings short of
/// the extent, so the offset never crosses to the far half-extent.
proof fn lemma_grid_offset(i: int, extent: int, nd: int)
    requires
        1 <= nd,
        0 < extent <= 0x40000000,
        0 <= i <= tdiv(extent, nd) - 2,
    ensures
        0 <= i * nd <= extent - 2 * nd,
{
    let n = tdiv(extent, nd);
    lemma_tdiv(extent, nd);
    assert(0 <= i * nd <= extent - 2 * nd) by (nonlinear_arith)
        requires
            0 <= i <= n - 2,
            1 <= nd,
            nd * n <= extent,
    ;
}

} // verus!
