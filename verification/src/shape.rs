//! Shapes: orientation (unit-quaternion rotators), point clouds with
//! surface normals, and the parametric generators that produce them.

pub mod rotator;
pub mod shape_base;
pub mod shape_gen;
