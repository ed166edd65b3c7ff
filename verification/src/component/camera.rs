//! The camera: a position, a facing direction and a vertical field of
//! view.

use crate::basetype::{Angle, Angle3D, Coord, Vector3D};
use crate::fixed::{bounded, isqrt_spec, sc, tdiv, vlim, PI_FX};
use crate::math::trig::atan2_spec;
use vstd::prelude::*;

verus! {

/// A camera with a vertical field of view, stored in radians.
#[derive(Clone, PartialEq, Eq, Structural, Debug)]
pub struct Camera {
    pub coord: Coord,
    pub facing: Vector3D,
    /// Vertical fov
    pub fov: Angle,
}

impl Camera {
    /// Builds a camera looking along `facing`, which is normalized at
    /// construction.  The field of view is vertical, in radians.
    pub fn new(coord: Coord, facing: Vector3D, fov: Angle) -> (r: Camera)
        requires
            facing.is_bounded(vlim()),
            facing.sumsq() >= 1,
            0 < fov@ < PI_FX as int,
        ensures
            r.coord == coord,
            r.fov == fov,
            r.facing.x@ == tdiv(facing.x@ * sc(), isqrt_spec(facing.sumsq())),
            r.facing.y@ == tdiv(facing.y@ * sc(), isqrt_spec(facing.sumsq())),
            r.facing.z@ == tdiv(facing.z@ * sc(), isqrt_spec(facing.sumsq())),
            r.facing.is_bounded(sc()),
    {
        let normalised_facing = facing.normalise();
        Camera { coord, facing: normalised_facing, fov }
    }

    /// The camera's orientation as Euler angles of its facing direction;
    /// roll is not represented and reads as zero.
    pub fn angle(&self) -> (r: Angle3D)
        requires
            self.facing.is_bounded(0x100000000),
        ensures
            r.roll@ == 0,
            r.yaw@ == atan2_spec(self.facing.y@, self.facing.x@),
            r.pitch@ == atan2_spec(
                self.facing.z@,
                isqrt_spec(self.facing.x@ * self.facing.x@ + self.facing.y@ * self.facing.y@),
            ),
            bounded(r.yaw@, PI_FX as int),
            bounded(r.pitch@, PI_FX as int),
            self.facing.y@ == 0 && self.facing.x@ > 0 ==> r.yaw@ == 0,
            self.facing.z@ == 0 && (self.facing.x@ != 0 || self.facing.y@ != 0) ==> r.pitch@
                == 0,
    {
        self.facing.angle()
    }
}

} // verus!
