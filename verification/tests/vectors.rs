use shapes_rs::basetype::{Angle, Angle3D, Coord, Vector3D};
use shapes_rs::fixed::{Fx, DEG_PER_RAD_FX, PI_FX, SCALE};

fn fx(units: i64) -> Fx {
    Fx { raw: units * SCALE }
}

fn vec3(x: i64, y: i64, z: i64) -> Vector3D {
    Vector3D::new(fx(x), fx(y), fx(z))
}

#[test]
fn normalised_vector_has_unit_magnitude() {
    let v = vec3(3, 2, 1);
    let n = v.normalise();
    let m = n.magnitude();
    let err = (m.raw - SCALE).abs();
    assert!(err <= 16, "magnitude {} too far from one unit", m.raw);
}

#[test]
fn normalised_large_vector_has_unit_magnitude() {
    let v = vec3(-300, 41, 999);
    let n = v.normalise();
    let m = n.magnitude();
    assert!((m.raw - SCALE).abs() <= 16);
}

#[test]
fn magnitude_of_pythagorean_triple_is_exact() {
    let v = vec3(2, 3, 6);
    assert_eq!(v.magnitude().raw, 7 * SCALE);
}

#[test]
fn dot_of_perpendicular_axes_is_zero() {
    let a = vec3(3, 0, 0);
    let b = vec3(0, 3, 0);
    assert_eq!(a.dot(b).raw, 0);
}

#[test]
fn dot_of_parallel_vectors_is_product() {
    let a = vec3(3, 0, 0);
    let b = vec3(3, 0, 0);
    assert_eq!(a.dot(b).raw, 9 * SCALE);
}

#[test]
fn cross_of_orthogonal_unit_vectors_is_unit() {
    let a = vec3(1, 0, 0);
    let b = vec3(0, 1, 0);
    assert_eq!(a.dot(b).raw, 0);
    let c = a.cross(b);
    assert_eq!(c.x.raw, 0);
    assert_eq!(c.y.raw, 0);
    assert_eq!(c.z.raw, SCALE);
    assert_eq!(c.magnitude().raw, SCALE);
}

#[test]
fn coord_arithmetic_is_componentwise() {
    let a = Coord::new(fx(5), fx(2), fx(6));
    let doubled = a.mul(fx(2));
    assert_eq!(doubled.x.raw, 10 * SCALE);
    assert_eq!(doubled.y.raw, 4 * SCALE);
    assert_eq!(doubled.z.raw, 12 * SCALE);
    let b = Coord::new(fx(1), fx(1), fx(1));
    let s = a.add(b);
    assert_eq!(s.x.raw, 6 * SCALE);
    let d = a.sub(b);
    assert_eq!(d.y.raw, SCALE);
}

#[test]
fn angle_conversions_round_radians() {
    let half_turn = Angle::from_degree(fx(180));
    assert!((half_turn.get().raw - PI_FX).abs() <= 4);
    let two = Angle::from_radian(fx(2));
    assert_eq!(two.get_radian().raw, 2 * SCALE);
    assert_eq!(Angle::default().get().raw, 0);
    assert!(DEG_PER_RAD_FX > 0);
}

#[test]
fn direction_angles_of_axes() {
    let x_vector = vec3(3, 0, 0);
    assert_eq!(x_vector.angle().yaw.get().raw, 0);
    assert_eq!(x_vector.angle().pitch.get().raw, 0);
    assert_eq!(x_vector.angle().roll.get().raw, 0);
    let y_vector = vec3(0, 3, 0);
    let yaw = y_vector.angle().yaw.get().raw;
    assert!((yaw - PI_FX / 2).abs() <= 300, "yaw {}", yaw);
    let z_vector = vec3(0, 0, 3);
    let pitch = z_vector.angle().pitch.get().raw;
    assert!((pitch - PI_FX / 2).abs() <= 300, "pitch {}", pitch);
}

#[test]
fn angle_between_perpendicular_vectors_is_right() {
    let a = vec3(3, 0, 0);
    let b = vec3(0, 0, 3);
    let ang = a.angle_between(b).raw;
    assert!((ang - PI_FX / 2).abs() <= 300, "angle {}", ang);
}

#[test]
fn angle3d_scales_componentwise() {
    let a = Angle3D::new(
        Angle::from_radian(fx(1)),
        Angle::from_radian(fx(2)),
        Angle::from_radian(fx(3)),
    );
    let m = a.mul(Fx { raw: -SCALE });
    assert_eq!(m.roll.get().raw, -SCALE);
    assert_eq!(m.pitch.get().raw, -2 * SCALE);
    assert_eq!(m.yaw.get().raw, -3 * SCALE);
}

#[test]
fn distance_between_coords_is_euclidean() {
    let a = Coord::new(fx(1), fx(1), fx(1));
    let b = Coord::new(fx(3), fx(4), fx(7));
    let d = shapes_rs::math::trig::get_distance(&a, &b);
    assert_eq!(d.raw, 7 * SCALE);
}

#[test]
fn angle_arithmetic_matches_fixed_point() {
    let a = Angle::from_radian(fx(6));
    let b = Angle::from_radian(fx(2));
    assert_eq!(a.mul(b).get().raw, 12 * SCALE);
    assert_eq!(a.div(b).get().raw, 3 * SCALE);
    assert_eq!(a.add(b).get().raw, 8 * SCALE);
    assert_eq!(a.sub(b).get().raw, 4 * SCALE);
    assert_eq!(Angle::from_radian(fx(1)).get_degrees().raw, DEG_PER_RAD_FX);
    let round = Angle::from_degree(fx(180)).get_degrees();
    assert!((round.raw - 180 * SCALE).abs() <= 40, "degrees {}", round.raw);
}

#[test]
fn default_direction_points_along_x() {
    let d = Vector3D::default();
    assert_eq!((d.x.raw, d.y.raw, d.z.raw), (SCALE, 0, 0));
    let o = Coord::default();
    assert_eq!((o.x.raw, o.y.raw, o.z.raw), (0, 0, 0));
    let a3 = Angle3D::default();
    assert_eq!(a3.get().0.get().raw, 0);
}
