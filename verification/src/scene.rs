//! The scene aggregate: one camera, ordered lights and objects, and the
//! output buffer whose dimensions the renderer fills.

use crate::component::{Camera, Light3D, Object};
use crate::fixed::PI_FX;
use crate::math::projection::{pers_proj, ramp_spec, render_spec};
use crate::out::terminal::SimpleTerminalBuffer;
use vstd::prelude::*;

verus! {

/// World magnitudes a renderable scene keeps its coordinates within.
pub open spec fn scene_lim() -> int {
    0x4000000
}

/// A renderable scene.
pub struct Scene {
    pub camera: Camera,
    pub lights: Vec<Light3D>,
    pub objects: Vec<Object>,
    pub buffer: SimpleTerminalBuffer,
}

impl Scene {
    /// An object the renderer can take through its pipeline: bounded
    /// placement and geometry, and an orientation fit to apply.
    pub open spec fn object_ok(o: &Object) -> bool {
        &&& o.location.is_bounded(scene_lim())
        &&& o.rotation.is_wf()
        &&& o.shape.is_bounded(scene_lim())
    }

    /// The whole scene is renderable.
    pub open spec fn wf(&self) -> bool {
        &&& self.camera.coord.is_bounded(scene_lim())
        &&& self.camera.facing.is_bounded(0x100000000)
        &&& 0 < self.camera.fov@ < PI_FX as int
        &&& self.buffer.size_x <= 65536
        &&& self.buffer.size_y <= 65536
        &&& self.buffer.size_x * self.buffer.size_y <= 0x40000000
        &&& forall|i: int|
            0 <= i < self.lights@.len() ==> (#[trigger] self.lights@[i]).coord.is_bounded(
                scene_lim(),
            )
        &&& forall|i: int|
            0 <= i < self.objects@.len() ==> Self::object_ok(&#[trigger] self.objects@[i])
    }

    /// A scene around a camera and an output buffer, with no lights or
    /// objects yet.
    pub fn new(camera: Camera, buffer: SimpleTerminalBuffer) -> (r: Scene)
        requires
            camera.coord.is_bounded(scene_lim()),
            camera.facing.is_bounded(0x100000000),
            0 < camera.fov@ < PI_FX as int,
            buffer.size_x <= 65536,
            buffer.size_y <= 65536,
            buffer.size_x * buffer.size_y <= 0x40000000,
        ensures
            r.camera == camera,
            r.buffer == buffer,
            r.lights@.len() == 0,
            r.objects@.len() == 0,
            r.wf(),
    {
        Scene { camera, lights: Vec::new(), objects: Vec::new(), buffer }
    }

    /// Renders the scene into a fresh buffer of the bound buffer's size.
    /// The picture is `render_spec` of the scene: deterministic, every
    /// cell either untouched blank or the glyph of the nearest sample
    /// that won it.
    pub fn render(&self) -> (r: SimpleTerminalBuffer)
        requires
            self.wf(),
        ensures
            r.size_x == self.buffer.size_x,
            r.size_y == self.buffer.size_y,
            r.wf(),
            r.buffer@ == render_spec(
                self.camera,
                self.lights@,
                self.objects@,
                self.buffer.size_x as int,
                self.buffer.size_y as int,
            ),
            forall|i: int|
                0 <= i < r.buffer@.len() ==> (#[trigger] r.buffer@[i]) == ' '
                    || ramp_spec().contains(r.buffer@[i]),
    {
        pers_proj(self)
    }

    /// The size of the bound buffer.
    pub fn get_buffer_size(&self) -> (r: (usize, usize))
        ensures
            r == (self.buffer.size_x, self.buffer.size_y),
    {
        (self.buffer.size_x, self.buffer.size_y)
    }

    /// Appends an object.
    pub fn add_object(&mut self, object: Object)
        requires
            Scene::object_ok(&object),
        ensures
            final(self).objects@ == old(self).objects@.push(object),
            final(self).lights == old(self).lights,
            final(self).camera == old(self).camera,
            final(self).buffer == old(self).buffer,
            old(self).wf() ==> final(self).wf(),
    {
        self.objects.push(object);
    }

    /// Appends a light source.
    pub fn add_light(&mut self, light: Light3D)
        requires
            light.coord.is_bounded(scene_lim()),
        ensures
            final(self).lights@ == old(self).lights@.push(light),
            final(self).objects == old(self).objects,
            final(self).camera == old(self).camera,
            final(self).buffer == old(self).buffer,
            old(self).wf() ==> final(self).wf(),
    {
        self.lights.push(light);
    }
}

} // verus!
