use shapes_rs::fixed::{Fx, SCALE};
use shapes_rs::shape::shape_base::Shape;
use shapes_rs::shape::shape_gen::{CubeGenerator, TorusGenerator};

fn fx(units: i64) -> Fx {
    Fx { raw: units * SCALE }
}

#[test]
fn torus_points_stay_within_the_tube() {
    let thickness: i64 = 2;
    let radius: i64 = 5;
    let gen = TorusGenerator::new(fx(thickness), fx(radius));
    let shape = Shape::new(&gen);
    // One sample per pair of default angle steps across the full turn.
    let steps = ((411774 - 1) / 2621 + 1) as usize;
    assert_eq!(shape.points.len(), steps * steps);
    let lo = ((radius - thickness) * SCALE) as f64 - 700.0;
    let hi = ((radius + thickness) * SCALE) as f64 + 700.0;
    for p in shape.points.iter() {
        let y = p.rel_coord.y.raw as f64;
        let z = p.rel_coord.z.raw as f64;
        let d = (y * y + z * z).sqrt();
        assert!(d >= lo && d <= hi, "ring distance {} outside [{}, {}]", d, lo, hi);
        assert!(p.rel_coord.x.raw.abs() <= thickness * SCALE);
    }
}

#[test]
fn torus_normals_are_unit_directions() {
    let gen = TorusGenerator::new(fx(1), fx(4));
    let shape = Shape::new(&gen);
    for p in shape.points.iter() {
        let nx = p.normal.x.raw as f64;
        let ny = p.normal.y.raw as f64;
        let nz = p.normal.z.raw as f64;
        let m = (nx * nx + ny * ny + nz * nz).sqrt();
        assert!((m - SCALE as f64).abs() <= 16.0, "normal magnitude {}", m);
    }
}

#[test]
fn cube_points_lie_on_faces_with_outward_normals() {
    let gen = CubeGenerator::new(fx(4), fx(6), fx(8));
    let shape = Shape::new(&gen);
    assert!(shape.points.len() > 0);
    let ex = 2 * SCALE;
    let ey = 3 * SCALE;
    let ez = 4 * SCALE;
    let mut seen_px = false;
    for p in shape.points.iter() {
        let c = p.rel_coord;
        let n = p.normal;
        let on_px = c.x.raw == ex && n.x.raw == SCALE && n.y.raw == 0 && n.z.raw == 0;
        let on_mx = c.x.raw == -ex && n.x.raw == -SCALE && n.y.raw == 0 && n.z.raw == 0;
        let on_py = c.y.raw == ey && n.y.raw == SCALE && n.x.raw == 0 && n.z.raw == 0;
        let on_my = c.y.raw == -ey && n.y.raw == -SCALE && n.x.raw == 0 && n.z.raw == 0;
        let on_pz = c.z.raw == ez && n.z.raw == SCALE && n.x.raw == 0 && n.y.raw == 0;
        let on_mz = c.z.raw == -ez && n.z.raw == -SCALE && n.x.raw == 0 && n.y.raw == 0;
        assert!(on_px || on_mx || on_py || on_my || on_pz || on_mz);
        if on_px {
            seen_px = true;
        }
    }
    assert!(seen_px);
}

#[test]
fn cube_counts_match_the_grid() {
    let gen = CubeGenerator::new(fx(4), fx(4), fx(4));
    let shape = Shape::new(&gen);
    assert_eq!(shape.points.len(), 6 * 3 * 3);
}

#[test]
fn generators_are_deterministic() {
    let torus = TorusGenerator::new(fx(1), fx(4));
    let first = Shape::new(&torus);
    let second = Shape::new(&torus);
    assert_eq!(first.points, second.points);
    let cube = CubeGenerator::new(fx(4), fx(6), fx(8));
    assert_eq!(Shape::new(&cube).points, Shape::new(&cube).points);
}

#[test]
fn cube_points_stay_on_the_face_rectangles() {
    let gen = CubeGenerator::new(fx(4), fx(6), fx(8));
    let shape = Shape::new(&gen);
    for p in shape.points.iter() {
        assert!(p.rel_coord.x.raw.abs() <= 2 * SCALE);
        assert!(p.rel_coord.y.raw.abs() <= 3 * SCALE);
        assert!(p.rel_coord.z.raw.abs() <= 4 * SCALE);
    }
}
