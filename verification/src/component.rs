//! Scene components: the camera, light sources and placed objects.

pub mod camera;
pub mod light;
pub mod object;

pub use camera::Camera;
pub use light::Light3D;
pub use object::Object;
