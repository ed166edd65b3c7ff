//! A light source: a bare position, with no intensity or falloff.

use crate::basetype::Coord;
use vstd::prelude::*;

verus! {

/// A point light.
#[derive(Clone, Copy, PartialEq, Eq, Structural, Debug)]
pub struct Light3D {
    pub coord: Coord,
}

impl Light3D {
    pub fn new(coord: Coord) -> (r: Light3D)
        ensures
            r.coord == coord,
    {
        Light3D { coord }
    }
}

} // verus!
