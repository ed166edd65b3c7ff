use shapes_rs::basetype::{Angle, Coord, Vector3D};
use shapes_rs::component::{Camera, Light3D, Object};
use shapes_rs::fixed::{Fx, SCALE};
use shapes_rs::math::projection::{luminance_ramp, pers_proj, project_point};
use shapes_rs::out::terminal::SimpleTerminalBuffer;
use shapes_rs::out::Buffer;
use shapes_rs::scene::Scene;
use shapes_rs::shape::rotator::Rotator;
use shapes_rs::shape::shape_base::{Point, Shape};
use shapes_rs::shape::shape_gen::TorusGenerator;
use shapes_rs::view::Viewport;

fn fx(units: i64) -> Fx {
    Fx { raw: units * SCALE }
}

fn vec3(x: i64, y: i64, z: i64) -> Vector3D {
    Vector3D::new(fx(x), fx(y), fx(z))
}

fn identity() -> Rotator {
    Rotator { x: Fx { raw: 0 }, y: Fx { raw: 0 }, z: Fx { raw: 0 }, w: Fx { raw: SCALE } }
}

fn camera_at_origin() -> Camera {
    Camera::new(Coord::default(), vec3(1, 0, 0), Angle::from_radian(Fx { raw: 102944 }))
}

fn single_point_shape(p: Point) -> Shape {
    Shape { points: vec![p] }
}

#[test]
fn perfectly_aligned_point_shades_brightest() {
    // The normal faces the camera-coincident light exactly: shading angle
    // zero maps to the densest glyph.
    let camera = camera_at_origin();
    let buffer = SimpleTerminalBuffer::new(11, 11);
    let mut scene = Scene::new(camera, buffer);
    scene.add_light(Light3D::new(Coord::default()));
    let p = Point::new(
        Coord::new(fx(10), Fx { raw: 0 }, Fx { raw: 0 }),
        Vector3D::new(Fx { raw: -SCALE }, Fx { raw: 0 }, Fx { raw: 0 }),
    );
    let obj = Object::new_with_shape(Coord::default(), single_point_shape(p), identity());
    scene.add_object(obj);
    let out = scene.render();
    assert_eq!(out.get(5, 5), '@');
}

#[test]
fn forward_point_renders_to_center_with_brightest_glyph() {
    let camera = camera_at_origin();
    let buffer = SimpleTerminalBuffer::new(11, 11);
    let mut scene = Scene::new(camera, buffer);
    scene.add_light(Light3D::new(Coord::default()));
    let p = Point::new(
        Coord::new(fx(10), Fx { raw: 0 }, Fx { raw: 0 }),
        Vector3D::new(Fx { raw: -SCALE }, Fx { raw: 30000 }, Fx { raw: 0 }),
    );
    let obj = Object::new_with_shape(Coord::default(), single_point_shape(p), identity());
    scene.add_object(obj);
    let out = scene.render();
    assert_eq!(out.get(5, 5), '@');
    let mut written = 0;
    for y in 0..11usize {
        for x in 0..11usize {
            if out.get(y, x) != ' ' {
                written += 1;
            }
        }
    }
    assert_eq!(written, 1);
}

#[test]
fn point_behind_camera_is_never_written() {
    let camera = camera_at_origin();
    let buffer = SimpleTerminalBuffer::new(11, 11);
    let mut scene = Scene::new(camera, buffer);
    scene.add_light(Light3D::new(Coord::default()));
    let p = Point::new(
        Coord::new(fx(-10), fx(1), fx(2)),
        Vector3D::new(Fx { raw: SCALE }, Fx { raw: 0 }, Fx { raw: 0 }),
    );
    let obj = Object::new_with_shape(Coord::default(), single_point_shape(p), identity());
    scene.add_object(obj);
    let out = scene.render();
    for y in 0..11usize {
        for x in 0..11usize {
            assert_eq!(out.get(y, x), ' ');
        }
    }
}

#[test]
fn projection_rejects_points_behind_the_camera() {
    let cpv = Vector3D::new(Fx { raw: -SCALE }, Fx { raw: 0 }, Fx { raw: 0 });
    assert!(project_point(cpv, fx(5), 11, 11).is_none());
    let on_plane = Vector3D::new(Fx { raw: 0 }, Fx { raw: 3 }, Fx { raw: 0 });
    assert!(project_point(on_plane, fx(5), 11, 11).is_none());
}

#[test]
fn nearest_point_wins_whatever_the_order() {
    let near = Point::new(
        Coord::new(fx(10), Fx { raw: 0 }, Fx { raw: 0 }),
        Vector3D::new(Fx { raw: -2000 }, Fx { raw: 65000 }, Fx { raw: 0 }),
    );
    let far = Point::new(
        Coord::new(fx(20), Fx { raw: 0 }, Fx { raw: 0 }),
        Vector3D::new(Fx { raw: -SCALE }, Fx { raw: 20000 }, Fx { raw: 0 }),
    );
    let mut glyphs: Vec<char> = Vec::new();
    let orders: Vec<Vec<Point>> = vec![vec![near, far], vec![far, near]];
    for points in orders {
        let camera = camera_at_origin();
        let buffer = SimpleTerminalBuffer::new(11, 11);
        let mut scene = Scene::new(camera, buffer);
        scene.add_light(Light3D::new(Coord::default()));
        let shape = Shape { points };
        scene.add_object(Object::new_with_shape(Coord::default(), shape, identity()));
        let out = scene.render();
        glyphs.push(out.get(5, 5));
    }
    assert_eq!(glyphs[0], glyphs[1]);
    assert_ne!(glyphs[0], ' ');
}

#[test]
fn rendered_torus_writes_only_ramp_glyphs() {
    let camera = camera_at_origin();
    let buffer = SimpleTerminalBuffer::new(60, 30);
    let mut scene = Scene::new(camera, buffer);
    scene.add_light(Light3D::new(Coord::new(fx(0), fx(0), fx(50))));
    let gen = TorusGenerator::new(fx(2), fx(8));
    let obj = Object::new(Coord::new(fx(30), fx(0), fx(0)), &gen, identity());
    scene.add_object(obj);
    let out = scene.render();
    let ramp = luminance_ramp();
    let mut non_blank = 0;
    for y in 0..30usize {
        for x in 0..60usize {
            let g = out.get(y, x);
            if g != ' ' {
                non_blank += 1;
                assert!(ramp.contains(&g));
            }
        }
    }
    assert!(non_blank > 20, "only {} cells written", non_blank);
    let direct = pers_proj(&scene);
    assert_eq!(direct.buffer, out.buffer);
}

#[test]
fn viewport_renders_like_a_scene() {
    let camera = camera_at_origin();
    let buffer = SimpleTerminalBuffer::new(21, 21);
    let mut view = Viewport::new(camera, buffer);
    view.add_light(Light3D::new(Coord::default()));
    let p = Point::new(
        Coord::new(fx(10), Fx { raw: 0 }, Fx { raw: 0 }),
        Vector3D::new(Fx { raw: -SCALE }, Fx { raw: 30000 }, Fx { raw: 0 }),
    );
    view.add_object(Object::new_with_shape(Coord::default(), single_point_shape(p), identity()));
    assert_eq!(view.get_buffer_size(), (21, 21));
    let out = view.render();
    assert_eq!(out.get(10, 10), '@');
}

#[test]
fn buffer_get_and_set_round_trip() {
    let mut b = SimpleTerminalBuffer::new(4, 3);
    assert_eq!(b.get(0, 0), ' ');
    b.set(2, 3, '#');
    assert_eq!(b.get(2, 3), '#');
    assert_eq!(b.get(2, 2), ' ');
    let replacement: Vec<char> = vec!['a'; 12];
    let mut c = SimpleTerminalBuffer::new(4, 3);
    c.replace_buffer(replacement);
    assert_eq!(c.get(1, 1), 'a');
    let d = SimpleTerminalBuffer::new_with_buffer(4, 3, vec!['b'; 12]);
    let mut e = SimpleTerminalBuffer::new(4, 3);
    e.replace_buffer_self(d);
    assert_eq!(e.get(0, 3), 'b');
}

#[test]
fn objects_orbit_and_spin() {
    let gen = TorusGenerator::new(fx(1), fx(3));
    let obj = Object::new(Coord::new(fx(10), fx(0), fx(0)), &gen, identity());
    let axis = Vector3D::new(Fx { raw: 0 }, Fx { raw: 0 }, Fx { raw: SCALE });
    let quarter = Rotator::new(axis, Fx { raw: 102944 });
    let orbited = obj.new_from_rotate_around(Coord::default(), &quarter);
    assert!((orbited.location.y.raw - 10 * SCALE).abs() <= 512, "y {}", orbited.location.y.raw);
    assert!(orbited.location.x.raw.abs() <= 512);
    assert_eq!(orbited.rotation, obj.rotation);
    let spun = obj.new_from_rotated(&quarter);
    assert_eq!(spun.location, obj.location);
    assert_eq!(spun.shape.points.len(), obj.shape.points.len());
}

#[test]
fn empty_scene_renders_blank() {
    let camera = camera_at_origin();
    let buffer = SimpleTerminalBuffer::new(9, 7);
    let mut scene = Scene::new(camera, buffer);
    scene.add_light(Light3D::new(Coord::default()));
    let out = scene.render();
    for y in 0..7usize {
        for x in 0..9usize {
            assert_eq!(out.get(y, x), ' ');
        }
    }
}

#[test]
fn rendering_is_deterministic() {
    let make = || {
        let camera = camera_at_origin();
        let buffer = SimpleTerminalBuffer::new(40, 20);
        let mut scene = Scene::new(camera, buffer);
        scene.add_light(Light3D::new(Coord::new(fx(0), fx(5), fx(30))));
        let gen = TorusGenerator::new(fx(2), fx(6));
        scene.add_object(Object::new(Coord::new(fx(25), fx(0), fx(0)), &gen, identity()));
        scene.render()
    };
    let first = make();
    let second = make();
    assert_eq!(first.buffer, second.buffer);
}
