use shapes_rs::basetype::{Angle, Angle3D, Vector3D};
use shapes_rs::fixed::{Fx, SCALE};
use shapes_rs::shape::rotator::Rotator;
use shapes_rs::shape::shape_base::{Point, Shape};
use shapes_rs::shape::shape_gen::TorusGenerator;
use shapes_rs::basetype::Coord;

fn fx(units: i64) -> Fx {
    Fx { raw: units * SCALE }
}

fn vec3(x: i64, y: i64, z: i64) -> Vector3D {
    Vector3D::new(fx(x), fx(y), fx(z))
}

#[test]
fn zero_euler_rotator_is_identity() {
    let r = Rotator::from_global(Angle3D::default());
    assert_eq!(r.x.raw, 0);
    assert_eq!(r.y.raw, 0);
    assert_eq!(r.z.raw, 0);
    assert_eq!(r.w.raw, SCALE);
    let v = vec3(7, -3, 11);
    let w = r.apply(v);
    assert_eq!(w.x.raw, v.x.raw);
    assert_eq!(w.y.raw, v.y.raw);
    assert_eq!(w.z.raw, v.z.raw);
}

#[test]
fn axis_rotation_and_its_inverse_cancel() {
    let axis = vec3(1, 1, 0);
    let half = Fx { raw: SCALE / 2 };
    let q = Rotator::new(axis, half);
    let qi = Rotator::new(axis, Fx { raw: -(SCALE / 2) });
    let v = vec3(1, 2, 3);
    let w = qi.apply(q.apply(v));
    assert!((w.x.raw - v.x.raw).abs() <= 64, "x {} vs {}", w.x.raw, v.x.raw);
    assert!((w.y.raw - v.y.raw).abs() <= 64, "y {} vs {}", w.y.raw, v.y.raw);
    assert!((w.z.raw - v.z.raw).abs() <= 64, "z {} vs {}", w.z.raw, v.z.raw);
}

#[test]
fn quarter_turn_about_vertical_moves_x_to_y() {
    let axis = vec3(0, 0, 1);
    let quarter = Fx { raw: 102944 };
    let q = Rotator::new(axis, quarter);
    let v = vec3(3, 0, 0);
    let w = q.apply(v);
    assert!(w.x.raw.abs() <= 256, "x {}", w.x.raw);
    assert!((w.y.raw - 3 * SCALE).abs() <= 256, "y {}", w.y.raw);
    assert!(w.z.raw.abs() <= 256, "z {}", w.z.raw);
}

#[test]
fn conjugate_negates_vector_part() {
    let q = Rotator { x: fx(1), y: fx(2), z: fx(3), w: fx(4) };
    let c = q.conjugate();
    assert_eq!(c.x.raw, -SCALE);
    assert_eq!(c.y.raw, -2 * SCALE);
    assert_eq!(c.z.raw, -3 * SCALE);
    assert_eq!(c.w.raw, 4 * SCALE);
}

#[test]
fn zero_angle_axis_rotation_is_identity() {
    let q = Rotator::new(vec3(2, 5, -1), Fx { raw: 0 });
    assert_eq!((q.x.raw, q.y.raw, q.z.raw, q.w.raw), (0, 0, 0, SCALE));
}

#[test]
fn normalize_restores_unit_norm() {
    let q = Rotator { x: fx(2), y: fx(0), z: fx(0), w: fx(0) };
    let n = q.normalize();
    assert_eq!((n.x.raw, n.y.raw, n.z.raw, n.w.raw), (SCALE, 0, 0, 0));
}

#[test]
fn default_rotator_is_the_identity() {
    let q = Rotator::default();
    assert_eq!((q.x.raw, q.y.raw, q.z.raw, q.w.raw), (0, 0, 0, SCALE));
    let v = vec3(4, 5, 6);
    let w = q.apply(v);
    assert_eq!((w.x.raw, w.y.raw, w.z.raw), (v.x.raw, v.y.raw, v.z.raw));
}

#[test]
fn shape_rotation_preserves_count_and_identity() {
    let gen = TorusGenerator::new(fx(1), fx(3));
    let shape = Shape::new(&gen);
    assert!(shape.generated());
    let id = Rotator::from_global(Angle3D::default());
    let rotated = shape.rotate(&id);
    assert_eq!(rotated.points.len(), shape.points.len());
    assert_eq!(rotated.points[0].rel_coord, shape.points[0].rel_coord);
}

#[test]
fn point_rotation_rotates_position_and_normal() {
    let p = Point::new(
        Coord::new(fx(3), fx(0), fx(0)),
        vec3(0, 1, 0),
    );
    let axis = vec3(0, 0, 1);
    let q = Rotator::new(axis, Fx { raw: 102944 });
    let rp = p.rotate(&q);
    assert!((rp.rel_coord.y.raw - 3 * SCALE).abs() <= 256);
    assert!((rp.normal.x.raw + SCALE).abs() <= 256);
}

#[test]
fn lazy_generation_happens_once() {
    let gen = TorusGenerator::new(fx(1), fx(3));
    let mut shape = Shape::new(&gen);
    let before = shape.points.len();
    shape.generate();
    assert_eq!(shape.points.len(), before);
    assert!(shape.generated());
    assert!(shape.is_within(0x100000000));
    assert!(!shape.is_within(0));
}

#[test]
fn angle_between_rotated_camera_directions() {
    let facing = vec3(1, 0, 0);
    let a = facing.angle();
    assert_eq!(a.yaw.get().raw, 0);
    assert_eq!(a.pitch.get().raw, 0);
    let _ = Angle::from_radian(fx(0));
}
