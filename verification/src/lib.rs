//! A software renderer for point-sampled 3D scenes.
//!
//! All geometry is carried in a fixed-point scalar type (`fixed::Fx`), so
//! every arithmetic step has an exact integer-level specification: vectors
//! and unit-quaternion rotators, parametric shape generators that emit point
//! clouds with surface normals, and a perspective point-splatting pipeline
//! that shades each visible sample into a character buffer.

pub mod basetype;
pub mod component;
pub mod fixed;
pub mod math;
pub mod out;
pub mod scene;
pub mod shape;
pub mod view;
