//! A viewport: a second name for the scene aggregate, kept with the same
//! fields and operations.

use crate::component::{Camera, Light3D, Object};
use crate::fixed::PI_FX;
use crate::math::projection::{ramp_spec, rasterize, render_spec};
use crate::out::terminal::SimpleTerminalBuffer;
use crate::scene::{scene_lim, Scene};
use vstd::prelude::*;

verus! {

/// A camera, lights and objects bound to an output buffer.
pub struct Viewport {
    pub camera: Camera,
    pub lights: Vec<Light3D>,
    pub objects: Vec<Object>,
    pub buffer: SimpleTerminalBuffer,
}

impl Viewport {
    /// The whole viewport is renderable.
    pub open spec fn wf(&self) -> bool {
        &&& self.camera.coord.is_bounded(scene_lim())
        &&& self.camera.facing.is_bounded(0x100000000)
        &&& 0 < self.camera.fov@ < PI_FX as int
        &&& self.buffer.size_x <= 65536
        &&& self.buffer.size_y <= 65536
        &&& self.buffer.size_x * self.buffer.size_y <= 0x40000000
        &&& forall|i: int|
            0 <= i < self.lights@.len() ==> (#[trigger] self.lights@[i]).coord.is_bounded(
                scene_lim(),
            )
        &&& forall|i: int|
            0 <= i < self.objects@.len() ==> Scene::object_ok(&#[trigger] self.objects@[i])
    }

    /// A viewport around a camera and an output buffer.
    pub fn new(camera: Camera, buffer: SimpleTerminalBuffer) -> (r: Viewport)
        requires
            camera.coord.is_bounded(scene_lim()),
            camera.facing.is_bounded(0x100000000),
            0 < camera.fov@ < PI_FX as int,
            buffer.size_x <= 65536,
            buffer.size_y <= 65536,
            buffer.size_x * buffer.size_y <= 0x40000000,
        ensures
            r.camera == camera,
            r.buffer == buffer,
            r.lights@.len() == 0,
            r.objects@.len() == 0,
            r.wf(),
    {
        Viewport { camera, lights: Vec::new(), objects: Vec::new(), buffer }
    }

    /// Renders the viewport into a fresh buffer of the bound buffer's
    /// size: the same `render_spec` picture a `Scene` of these parts
    /// renders.
    pub fn render(&self) -> (r: SimpleTerminalBuffer)
        requires
            self.wf(),
        ensures
            r.size_x == self.buffer.size_x,
            r.size_y == self.buffer.size_y,
            r.wf(),
            r.buffer@ == render_spec(
                self.camera,
                self.lights@,
                self.objects@,
                self.buffer.size_x as int,
                self.buffer.size_y as int,
            ),
            forall|i: int|
                0 <= i < r.buffer@.len() ==> (#[trigger] r.buffer@[i]) == ' '
                    || ramp_spec().contains(r.buffer@[i]),
    {
        rasterize(&self.camera, &self.lights, &self.objects, self.buffer.size_x, self.buffer.size_y)
    }

    /// The size of the bound buffer.
    pub fn get_buffer_size(&self) -> (r: (usize, usize))
        ensures
            r == (self.buffer.size_x, self.buffer.size_y),
    {
        (self.buffer.size_x, self.buffer.size_y)
    }

    /// Appends an object.
    pub fn add_object(&mut self, object: Object)
        requires
            Scene::object_ok(&object),
        ensures
            final(self).objects@ == old(self).objects@.push(object),
            old(self).wf() ==> final(self).wf(),
            final(self).lights == old(self).lights,
            final(self).camera == old(self).camera,
            final(self).buffer == old(self).buffer,
    {
        self.objects.push(object);
    }

    /// Appends a light source.
    pub fn add_light(&mut self, light: Light3D)
        requires
            light.coord.is_bounded(scene_lim()),
        ensures
            final(self).lights@ == old(self).lights@.push(light),
            old(self).wf() ==> final(self).wf(),
            final(self).objects == old(self).objects,
            final(self).camera == old(self).camera,
            final(self).buffer == old(self).buffer,
    {
        self.lights.push(light);
    }
}

} // verus!
