//! A placed shape: a world-space location, the shape's point cloud and an
//! orientation.

use crate::basetype::{Coord, Vector3D};
use crate::shape::rotator::{qmul_fx, qrot_fx, Rotator};
use crate::shape::shape_base::{point_rot_eq, Shape};
use crate::shape::shape_gen::ShapeGen;
use vstd::prelude::*;

verus! {

/// A shape placed in the world.
#[derive(Clone)]
pub struct Object {
    pub location: Coord,
    pub shape: Shape,
    pub rotation: Rotator,
}

impl Object {
    /// Builds the shape from the generator and places it.
    pub fn new<G: ShapeGen>(location: Coord, shape_generator: &G, rotation: Rotator) -> (r:
        Object)
        requires
            shape_generator.wf(),
        ensures
            r.location == location,
            r.rotation == rotation,
            r.shape.is_generated(),
            r.shape.points@ == shape_generator.emit(),
            forall|i: int|
                0 <= i < r.shape.points@.len() ==> shape_generator.point_ok(
                    #[trigger] r.shape.points@[i],
                ),
    {
        let shape = Shape::new(shape_generator);
        Object { location, shape, rotation }
    }

    /// Places an already generated shape.
    pub fn new_with_shape(location: Coord, shape: Shape, rotation: Rotator) -> (r: Object)
        ensures
            r.location == location,
            r.shape == shape,
            r.rotation == rotation,
    {
        Object { location, shape, rotation }
    }

    /// Orbits the object around `around`: the offset from the pivot is
    /// rotated and added back to the pivot, and the shape's local
    /// geometry is rotated by the same rotation, producing simultaneous
    /// orbiting and spinning.  The stored orientation is unchanged.
    pub fn new_from_rotate_around(&self, around: Coord, rotator: &Rotator) -> (r: Object)
        requires
            rotator.is_wf(),
            self.location.is_bounded(0x40000000),
            around.is_bounded(0x40000000),
            !(self.location == around),
            self.shape.is_bounded(0x100000000),
        ensures
            ({
                let q = qrot_fx(
                    rotator.qv(),
                    (
                        self.location.x@ - around.x@,
                        self.location.y@ - around.y@,
                        self.location.z@ - around.z@,
                    ),
                );
                r.location.x@ == around.x@ + q.0 && r.location.y@ == around.y@ + q.1
                    && r.location.z@ == around.z@ + q.2
            }),
            r.shape.points@.len() == self.shape.points@.len(),
            forall|i: int|
                0 <= i < self.shape.points@.len() ==> point_rot_eq(
                    rotator.qv(),
                    self.shape.points@[i],
                    #[trigger] r.shape.points@[i],
                ),
            r.rotation == self.rotation,
    {
        let loc_sub = self.location.sub(around);
        let loc_vec = Vector3D { x: loc_sub.x, y: loc_sub.y, z: loc_sub.z };
        let rotated_loc = loc_vec.rotate(rotator);
        let new_loc = around.add(rotated_loc.as_coord());
        Object {
            location: new_loc,
            shape: self.shape.rotate(rotator),
            rotation: self.rotation.clone(),
        }
    }

    /// Spins the object in place: the shape's local geometry is rotated
    /// and the stored orientation is composed with the rotation (the old
    /// orientation applies first).  The location is unchanged.
    pub fn new_from_rotated(&self, rotator: &Rotator) -> (r: Object)
        requires
            rotator.is_wf(),
            rotator.is_bounded(0x1000000000),
            self.rotation.is_bounded(0x1000000000),
            self.shape.is_bounded(0x100000000),
        ensures
            r.location == self.location,
            r.shape.points@.len() == self.shape.points@.len(),
            forall|i: int|
                0 <= i < self.shape.points@.len() ==> point_rot_eq(
                    rotator.qv(),
                    self.shape.points@[i],
                    #[trigger] r.shape.points@[i],
                ),
            r.rotation.qv() == qmul_fx(rotator.qv(), self.rotation.qv()),
    {
        Object {
            location: self.location,
            shape: self.shape.rotate(rotator),
            rotation: rotator.multiply(&self.rotation),
        }
    }
}

} // verus!
