//! Point clouds: a surface sample with its outward normal, and the shape
//! that owns an ordered collection of samples.

use crate::basetype::{Coord, Vector3D};
use crate::shape::rotator::{qrot_fx, Rotator};
use crate::shape::shape_gen::ShapeGen;
use vstd::prelude::*;

verus! {

/// A local-frame sample on a shape's surface: a position and an outward
/// normal.
#[derive(Clone, Copy, PartialEq, Eq, Structural, Debug)]
pub struct Point {
    pub rel_coord: Coord,
    pub normal: Vector3D,
}

/// `rp` is `p` with position and normal both rotated by the quaternion
/// `q`, exactly as the executable rotation computes them.
pub open spec fn point_rot_eq(q: (int, int, int, int), p: Point, rp: Point) -> bool {
    let c = qrot_fx(q, (p.rel_coord.x@, p.rel_coord.y@, p.rel_coord.z@));
    let n = qrot_fx(q, (p.normal.x@, p.normal.y@, p.normal.z@));
    &&& rp.rel_coord.x@ == c.0
    &&& rp.rel_coord.y@ == c.1
    &&& rp.rel_coord.z@ == c.2
    &&& rp.normal.x@ == n.0
    &&& rp.normal.y@ == n.1
    &&& rp.normal.z@ == n.2
}

impl Point {
    /// Position and normal both lie within `b` of zero.
    pub open spec fn is_bounded(&self, b: int) -> bool {
        self.rel_coord.is_bounded(b) && self.normal.is_bounded(b)
    }

    pub fn new(rel_coord: Coord, normal: Vector3D) -> (r: Point)
        ensures
            r == (Point { rel_coord, normal }),
    {
        Point { rel_coord, normal }
    }

    /// Rotates position and normal by the same orientation.
    pub fn rotate(&self, rotator: &Rotator) -> (r: Point)
        requires
            rotator.is_wf(),
            self.is_bounded(0x100000000),
        ensures
            point_rot_eq(rotator.qv(), *self, r),
            r.is_bounded(0x2000000000),
            self.is_bounded(0x4000000) ==> r.is_bounded(0x40000000),
            rotator.is_identity() ==> r == *self,
    {
        let pos = Vector3D { x: self.rel_coord.x, y: self.rel_coord.y, z: self.rel_coord.z };
        let rotated_pos = rotator.apply(pos);
        let rotated_normal = rotator.apply(self.normal);
        Point {
            rel_coord: Coord { x: rotated_pos.x, y: rotated_pos.y, z: rotated_pos.z },
            normal: rotated_normal,
        }
    }
}

/// An ordered point cloud.  A shape is built by running a generator once
/// at construction; afterwards it is read-only, and rotation produces a
/// new shape.
#[derive(Clone)]
pub struct Shape {
    pub points: Vec<Point>,
}

impl Shape {
    /// Shapes are generated eagerly at construction, so an ungenerated
    /// shape does not exist: there is no init-once flag to track.
    pub open spec fn is_generated(&self) -> bool {
        true
    }

    /// Every sample's position and normal lie within `b` of zero.
    pub open spec fn is_bounded(&self, b: int) -> bool {
        forall|i: int| 0 <= i < self.points@.len() ==> (#[trigger] self.points@[i]).is_bounded(b)
    }

    /// Builds a shape by running the generator once on an empty cloud.
    pub fn new<G: ShapeGen>(shape_generator: &G) -> (r: Shape)
        requires
            shape_generator.wf(),
        ensures
            r.is_generated(),
            r.points@ == shape_generator.emit(),
            forall|i: int|
                0 <= i < r.points@.len() ==> shape_generator.point_ok(#[trigger] r.points@[i]),
    {
        let points: Vec<Point> = Vec::new();
        let mut ret = Shape { points };
        shape_generator.generate_shape(&mut ret);
        proof {
            assert(ret.points@ =~= shape_generator.emit());
        }
        ret
    }

    /// A new shape with every sample rotated; the receiver is unchanged.
    pub fn rotate(&self, rotator: &Rotator) -> (r: Shape)
        requires
            rotator.is_wf(),
            self.is_bounded(0x100000000),
        ensures
            r.points@.len() == self.points@.len(),
            forall|i: int|
                0 <= i < self.points@.len() ==> point_rot_eq(
                    rotator.qv(),
                    self.points@[i],
                    #[trigger] r.points@[i],
                ),
            r.is_bounded(0x2000000000),
            r.is_generated(),
    {
        let mut new_points: Vec<Point> = Vec::new();
        let n = self.points.len();
        let mut idx: usize = 0;
        while idx < n
            invariant
                n == self.points@.len(),
                0 <= idx <= n,
                new_points@.len() == idx,
                rotator.is_wf(),
                self.is_bounded(0x100000000),
                forall|i: int|
                    0 <= i < idx as int ==> point_rot_eq(
                        rotator.qv(),
                        self.points@[i],
                        #[trigger] new_points@[i],
                    ),
                forall|i: int|
                    0 <= i < idx as int ==> (#[trigger] new_points@[i]).is_bounded(0x2000000000),
            decreases n - idx,
        {
            let rotated_point = self.points[idx].rotate(rotator);
            new_points.push(rotated_point);
            idx = idx + 1;
        }
        Shape { points: new_points }
    }

    /// Generation happened at construction, exactly once: a repeated
    /// request changes nothing.
    pub fn generate(&mut self)
        ensures
            final(self).points@ == old(self).points@,
            final(self).is_generated(),
    {
    }

    /// Whether the bound generator has populated this shape: always true,
    /// since construction runs the generator.
    pub fn generated(&self) -> (r: bool)
        ensures
            r == self.is_generated(),
    {
        true
    }

    /// Checks at run time that every sample lies within `bound` of zero,
    /// so callers can re-establish the precondition of `rotate` on data
    /// they did not build themselves.
    pub fn is_within(&self, bound: i64) -> (r: bool)
        requires
            bound >= 0,
        ensures
            r == self.is_bounded(bound as int),
    {
        let n = self.points.len();
        let mut idx: usize = 0;
        while idx < n
            invariant
                n == self.points@.len(),
                0 <= idx <= n,
                bound >= 0,
                forall|i: int|
                    0 <= i < idx as int ==> (#[trigger] self.points@[i]).is_bounded(bound as int),
            decreases n - idx,
        {
            let p = &self.points[idx];
            if p.rel_coord.x.raw > bound || p.rel_coord.x.raw < -bound || p.rel_coord.y.raw
                > bound || p.rel_coord.y.raw < -bound || p.rel_coord.z.raw > bound
                || p.rel_coord.z.raw < -bound || p.normal.x.raw > bound || p.normal.x.raw < -bound
                || p.normal.y.raw > bound || p.normal.y.raw < -bound || p.normal.z.raw > bound
                || p.normal.z.raw < -bound {
                return false;
            }
            idx = idx + 1;
        }
        true
    }
}

} // verus!
