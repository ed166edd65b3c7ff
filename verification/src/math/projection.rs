//! The perspective point-splatting pipeline.
//!
//! Every sample of every object is transformed to world space, then to
//! camera space; samples in front of the camera are projected against
//! the plane distance derived from the field of view, clipped to the
//! buffer, resolved nearest-first against a depth buffer, shaded by the
//! angle between surface normal and light direction, and written as a
//! glyph from the luminance ramp.

use crate::basetype::{clamped_ratio, clamped_ratio_spec, Coord, Vector3D};
use crate::component::{Camera, Light3D, Object};
use crate::fixed::{
    bounded, fxdiv, fxmul, is_isqrt, isqrt_spec, lemma_fxdiv_fits, lemma_fxmul_zero,
    lemma_isqrt_exists, lemma_isqrt_unique, lemma_mul_bound, lemma_tdiv, lemma_tdiv_exact,
    lemma_tdiv_mag, lemma_tdiv_neg, sc, tdiv, vlim, Fx, PI_FX, SCALE,
};
use crate::math::trig::{acos, acos_spec, atan2_spec, cos_sin, cos_sin_spec, lemma_atan2_spec_zero_pos};
use crate::out::terminal::{lemma_row_major, SimpleTerminalBuffer};
use crate::scene::{scene_lim, Scene};
use crate::shape::rotator::{euler_quat, lemma_euler_zero_identity, lemma_qrot_fx_identity, qrot_fx, quat_or_identity, Rotator};
use crate::shape::shape_base::Point;
use vstd::pervasive::VecAdditionalExecFns;
use vstd::prelude::*;

verus! {

/// The luminance ramp, from least to most visually dense.
pub open spec fn ramp_spec() -> Seq<char> {
    seq!['.', ',', '-', '~', ':', ';', '=', '!', '*', '#', '$', '@', '@', '@']
}

/// The luminance ramp as a vector of glyphs.
pub fn luminance_ramp() -> (r: Vec<char>)
    ensures
        r@ == ramp_spec(),
{
    let r: Vec<char> = vec!['.', ',', '-', '~', ':', ';', '=', '!', '*', '#', '$', '@', '@', '@'];
    proof {
        assert(r@ =~= ramp_spec());
    }
    r
}

/// The fixed-point screen coordinate of a camera-space sample: the
/// lateral component over the forward component, scaled by the plane
/// distance and offset to the buffer's center.
pub open spec fn screen_coord(lat: int, fwd: int, pb: int, size: int) -> int {
    tdiv(fxdiv(lat, fwd) * pb, sc()) + tdiv(size * sc(), 2)
}

/// Projects one camera-space sample to a buffer cell.
///
/// A sample on or behind the camera plane (forward component not
/// positive) is never projected; one whose screen coordinates leave the
/// buffer is discarded.
pub fn project_point(cpv: Vector3D, pb_dis: Fx, size_x: usize, size_y: usize) -> (r: Option<
    (usize, usize),
>)
    requires
        cpv.is_bounded(vlim()),
        bounded(pb_dis@, 0x1000000000000),
        size_x <= 65536,
        size_y <= 65536,
    ensures
        cpv.x@ <= 0 ==> r is None,
        cpv.x@ > 0 ==> ({
            let sx = screen_coord(cpv.y@, cpv.x@, pb_dis@, size_x as int);
            let sy = screen_coord(-cpv.z@, cpv.x@, pb_dis@, size_y as int);
            if 0 <= sx < size_x as int * sc() && 0 <= sy < size_y as int * sc() {
                r == Some((tdiv(sx, sc()) as usize, tdiv(sy, sc()) as usize))
            } else {
                r is None
            }
        }),
        r is Some ==> (r->Some_0).0 < size_x && (r->Some_0).1 < size_y && cpv.x@ > 0,
{
    if cpv.x.raw <= 0 {
        return None;
    }
    let fwd: i128 = cpv.x.raw as i128;
    proof {
        lemma_project_fits(cpv.y@, cpv.x@, pb_dis@);
        lemma_project_fits(-cpv.z@, cpv.x@, pb_dis@);
    }
    let ty: i128 = (cpv.y.raw as i128) * (SCALE as i128) / fwd;
    let tz: i128 = (-(cpv.z.raw as i128)) * (SCALE as i128) / fwd;
    let sxf: i128 = ty * (pb_dis.raw as i128) / (SCALE as i128) + (size_x as i128) * (
    SCALE as i128) / 2;
    let syf: i128 = tz * (pb_dis.raw as i128) / (SCALE as i128) + (size_y as i128) * (
    SCALE as i128) / 2;
    let wlim: i128 = (size_x as i128) * (SCALE as i128);
    let hlim: i128 = (size_y as i128) * (SCALE as i128);
    if sxf < 0 || sxf >= wlim || syf < 0 || syf >= hlim {
        return None;
    }
    proof {
        lemma_cell_of_screen(sxf as int, size_x as int);
        lemma_cell_of_screen(syf as int, size_y as int);
    }
    Some(((sxf / (SCALE as i128)) as usize, (syf / (SCALE as i128)) as usize))
}

/// The intermediate projection products fit their integer types.
proof fn lemma_project_fits(lat: int, fwd: int, pb: int)
    requires
        bounded(lat, vlim()),
        1 <= fwd,
        bounded(pb, 0x1000000000000),
    ensures
        bounded(fxdiv(lat, fwd), 0x40000000000000),
        bounded(fxdiv(lat, fwd) * pb, 0x400000000000000000000000000),
        bounded(lat * sc(), 0x80000000000000),
{
    lemma_fxdiv_fits(lat, fwd);
    lemma_mul_bound(fxdiv(lat, fwd), pb, 0x40000000000000, 0x1000000000000);
    assert(bounded(lat * sc(), 0x80000000000000)) by (nonlinear_arith)
        requires
            -0x4000000000 <= lat <= 0x4000000000,
    ;
}

/// A screen coordinate inside the scaled buffer maps to a cell index
/// inside the buffer.
proof fn lemma_cell_of_screen(sf: int, size: int)
    requires
        0 <= sf < size * sc(),
        0 <= size,
    ensures
        0 <= tdiv(sf, sc()) < size,
{
    lemma_tdiv(sf, sc());
    assert(tdiv(sf, sc()) < size) by (nonlinear_arith)
        requires
            0 <= sf - 65536 * tdiv(sf, sc()) < 65536,
            sf < size * 65536,
            sc() == 65536,
    ;
}

/// One cell of the depth-resolved output: a candidate sample replaces the
/// cell's state exactly when it is strictly nearer.
pub open spec fn splat(cell: (int, char), cand: (int, char)) -> (int, char) {
    if cand.0 < cell.0 {
        cand
    } else {
        cell
    }
}

/// Depth resolution is order-independent: two candidates of different
/// depths leave a cell in the same state whichever is splatted first, and
/// the nearer candidate wins when it beats the cell's current depth.
pub proof fn lemma_depth_order_irrelevant(cell: (int, char), c1: (int, char), c2: (int, char))
    requires
        c1.0 != c2.0,
    ensures
        splat(splat(cell, c1), c2) == splat(splat(cell, c2), c1),
        c1.0 < c2.0 && c1.0 < cell.0 ==> splat(splat(cell, c1), c2) == c1 && splat(
            splat(cell, c2),
            c1,
        ) == c1,
{
}

/// The shading index one light gives a sample, as `light_index`
/// computes it, over the surface normal, the sample's world position and
/// the light's position.
pub open spec fn light_index_spec(pn: (int, int, int), pc: (int, int, int), lc: (
    int,
    int,
    int,
)) -> int {
    let lvx = lc.0 - pc.0;
    let lvy = lc.1 - pc.1;
    let lvz = lc.2 - pc.2;
    if lvx == 0 && lvy == 0 && lvz == 0 {
        0
    } else {
        let lm = isqrt_spec(lvx * lvx + lvy * lvy + lvz * lvz);
        let lpx = tdiv(lvx * sc(), lm);
        let lpy = tdiv(lvy * sc(), lm);
        let lpz = tdiv(lvz * sc(), lm);
        let m1 = isqrt_spec(pn.0 * pn.0 + pn.1 * pn.1 + pn.2 * pn.2);
        let m2 = isqrt_spec(lpx * lpx + lpy * lpy + lpz * lpz);
        let d = tdiv(pn.0 * lpx + pn.1 * lpy + pn.2 * lpz, sc());
        let denom = fxmul(m1, m2);
        if denom <= 0 {
            0
        } else {
            let ang = acos_spec(clamped_ratio_spec(d, denom));
            let idx = tdiv((sc() - tdiv(ang * sc(), PI_FX as int)) * 14 + 32768, sc());
            if idx > 13 {
                13
            } else {
                idx
            }
        }
    }
}

/// The shading index of a sample under a light list: the last light
/// decides; no lights, or a normal that rotation truncated to nothing,
/// reads as the dimmest index.
pub open spec fn sample_shade(lights: Seq<Light3D>, world: (int, int, int), rn: (
    int,
    int,
    int,
)) -> int {
    if rn.0 == 0 && rn.1 == 0 && rn.2 == 0 {
        0
    } else if lights.len() == 0 {
        0
    } else {
        let nm = isqrt_spec(rn.0 * rn.0 + rn.1 * rn.1 + rn.2 * rn.2);
        let nn = (tdiv(rn.0 * sc(), nm), tdiv(rn.1 * sc(), nm), tdiv(rn.2 * sc(), nm));
        let lc = lights.last().coord;
        light_index_spec(nn, world, (lc.x@, lc.y@, lc.z@))
    }
}

/// The depth store and glyph store before any sample is splatted.
pub open spec fn blank_depths(n: int) -> Seq<i64> {
    Seq::new(n as nat, |i: int| i64::MAX)
}

/// A blank glyph store.
pub open spec fn blank_glyphs(n: int) -> Seq<char> {
    Seq::new(n as nat, |i: int| ' ')
}

/// A sample's world position: its local position rotated by the object's
/// orientation and placed at the object's location.
pub open spec fn sample_world(obj: Object, p: Point) -> (int, int, int) {
    let rc = qrot_fx(obj.rotation.qv(), (p.rel_coord.x@, p.rel_coord.y@, p.rel_coord.z@));
    (rc.0 + obj.location.x@, rc.1 + obj.location.y@, rc.2 + obj.location.z@)
}

/// Where one sample lands: its buffer cell (row-major) and its depth, or
/// nothing when the sample sits behind the camera or projects off
/// screen.
pub open spec fn sample_target(
    camq: (int, int, int, int),
    cam: Coord,
    pb: int,
    w: int,
    h: int,
    obj: Object,
    p: Point,
) -> Option<(int, int)> {
    let world = sample_world(obj, p);
    let pv = (world.0 - cam.x@, world.1 - cam.y@, world.2 - cam.z@);
    let depth = isqrt_spec(pv.0 * pv.0 + pv.1 * pv.1 + pv.2 * pv.2);
    let cv = qrot_fx(camq, (pv.0, pv.1, pv.2));
    if cv.0 <= 0 {
        None
    } else {
        let sx = screen_coord(cv.1, cv.0, pb, w);
        let sy = screen_coord(-cv.2, cv.0, pb, h);
        if 0 <= sx < w * sc() && 0 <= sy < h * sc() {
            Some((tdiv(sy, sc()) * w + tdiv(sx, sc()), depth))
        } else {
            None
        }
    }
}

/// The glyph index one sample shades to under the scene's lights.
pub open spec fn sample_glyph_idx(lights: Seq<Light3D>, obj: Object, p: Point) -> int {
    let rn = qrot_fx(obj.rotation.qv(), (p.normal.x@, p.normal.y@, p.normal.z@));
    sample_shade(lights, sample_world(obj, p), (rn.0, rn.1, rn.2))
}

/// One sample taken through the whole pipeline: rotated into the world,
/// taken to camera space, projected, depth-tested and shaded.  A sample
/// behind the camera or off screen leaves both stores unchanged; a
/// strictly nearer sample takes its cell.
pub open spec fn splat_point(
    camq: (int, int, int, int),
    cam: Coord,
    pb: int,
    w: int,
    h: int,
    lights: Seq<Light3D>,
    obj: Object,
    p: Point,
    zs: Seq<i64>,
    gs: Seq<char>,
) -> (Seq<i64>, Seq<char>) {
    match sample_target(camq, cam, pb, w, h, obj, p) {
        None => (zs, gs),
        Some(target) => {
            let cell = target.0;
            let depth = target.1;
            if depth < zs[cell] {
                (
                    zs.update(cell, depth as i64),
                    gs.update(cell, ramp_spec()[sample_glyph_idx(lights, obj, p)]),
                )
            } else {
                (zs, gs)
            }
        },
    }
}

/// Two samples landing on one cell with different depths leave the
/// stores in the same state whichever is splatted first, and when the
/// nearer of the two also beats the cell's current depth, its glyph and
/// depth are what the cell holds afterwards.
pub proof fn lemma_nearest_sample_wins(
    camq: (int, int, int, int),
    cam: Coord,
    pb: int,
    w: int,
    h: int,
    lights: Seq<Light3D>,
    o1: Object,
    p1: Point,
    o2: Object,
    p2: Point,
    zs: Seq<i64>,
    gs: Seq<char>,
)
    requires
        sample_target(camq, cam, pb, w, h, o1, p1) is Some,
        sample_target(camq, cam, pb, w, h, o2, p2) is Some,
        (sample_target(camq, cam, pb, w, h, o1, p1)->Some_0).0 == (sample_target(
            camq,
            cam,
            pb,
            w,
            h,
            o2,
            p2,
        )->Some_0).0,
        (sample_target(camq, cam, pb, w, h, o1, p1)->Some_0).1 != (sample_target(
            camq,
            cam,
            pb,
            w,
            h,
            o2,
            p2,
        )->Some_0).1,
        0 <= (sample_target(camq, cam, pb, w, h, o1, p1)->Some_0).0 < zs.len(),
        0 <= (sample_target(camq, cam, pb, w, h, o1, p1)->Some_0).1 <= i64::MAX,
        0 <= (sample_target(camq, cam, pb, w, h, o2, p2)->Some_0).1 <= i64::MAX,
        zs.len() == gs.len(),
    ensures
        ({
            let one_first = splat_point(
                camq,
                cam,
                pb,
                w,
                h,
                lights,
                o2,
                p2,
                splat_point(camq, cam, pb, w, h, lights, o1, p1, zs, gs).0,
                splat_point(camq, cam, pb, w, h, lights, o1, p1, zs, gs).1,
            );
            let two_first = splat_point(
                camq,
                cam,
                pb,
                w,
                h,
                lights,
                o1,
                p1,
                splat_point(camq, cam, pb, w, h, lights, o2, p2, zs, gs).0,
                splat_point(camq, cam, pb, w, h, lights, o2, p2, zs, gs).1,
            );
            &&& one_first == two_first
            &&& {
                let t1 = sample_target(camq, cam, pb, w, h, o1, p1)->Some_0;
                let t2 = sample_target(camq, cam, pb, w, h, o2, p2)->Some_0;
                t1.1 < t2.1 && t1.1 < zs[t1.0] ==> one_first.0[t1.0] == t1.1 as i64
                    && one_first.1[t1.0] == ramp_spec()[sample_glyph_idx(lights, o1, p1)]
            }
        }),
{
    let t1 = sample_target(camq, cam, pb, w, h, o1, p1)->Some_0;
    let t2 = sample_target(camq, cam, pb, w, h, o2, p2)->Some_0;
    let c = t1.0;
    let g1 = ramp_spec()[sample_glyph_idx(lights, o1, p1)];
    let g2 = ramp_spec()[sample_glyph_idx(lights, o2, p2)];
    let a1 = splat_point(camq, cam, pb, w, h, lights, o1, p1, zs, gs);
    let a2 = splat_point(camq, cam, pb, w, h, lights, o2, p2, zs, gs);
    let one_first = splat_point(camq, cam, pb, w, h, lights, o2, p2, a1.0, a1.1);
    let two_first = splat_point(camq, cam, pb, w, h, lights, o1, p1, a2.0, a2.1);
    if t1.1 < zs[c] && t2.1 < zs[c] {
        if t1.1 < t2.1 {
            assert(a1.0[c] == t1.1 as i64);
            assert(a2.0[c] == t2.1 as i64);
            assert(one_first =~= a1);
            assert(two_first.0 == a2.0.update(c, t1.1 as i64));
            assert(a2.0.update(c, t1.1 as i64) =~= zs.update(c, t1.1 as i64));
            assert(two_first.1 == a2.1.update(c, g1));
            assert(a2.1.update(c, g1) =~= gs.update(c, g1));
            assert(one_first =~= two_first);
        } else {
            assert(a1.0[c] == t1.1 as i64);
            assert(a2.0[c] == t2.1 as i64);
            assert(two_first =~= a2);
            assert(one_first.0 == a1.0.update(c, t2.1 as i64));
            assert(a1.0.update(c, t2.1 as i64) =~= zs.update(c, t2.1 as i64));
            assert(one_first.1 == a1.1.update(c, g2));
            assert(a1.1.update(c, g2) =~= gs.update(c, g2));
            assert(one_first =~= two_first);
        }
    } else if t1.1 < zs[c] {
        assert(a2 =~= (zs, gs));
        assert(a1.0[c] == t1.1 as i64);
        assert(one_first =~= a1);
        assert(two_first =~= a1);
    } else if t2.1 < zs[c] {
        assert(a1 =~= (zs, gs));
        assert(a2.0[c] == t2.1 as i64);
        assert(one_first =~= a2);
        assert(two_first =~= a2);
    } else {
        assert(a1 =~= (zs, gs));
        assert(a2 =~= (zs, gs));
        assert(one_first =~= (zs, gs));
        assert(two_first =~= (zs, gs));
    }
}

/// A sample behind the camera contributes nothing: whatever its lateral
/// coordinates, splatting it returns both stores unchanged, as if the
/// sample were absent.
pub proof fn lemma_behind_camera_unwritten(
    camq: (int, int, int, int),
    cam: Coord,
    pb: int,
    w: int,
    h: int,
    lights: Seq<Light3D>,
    obj: Object,
    p: Point,
    zs: Seq<i64>,
    gs: Seq<char>,
)
    requires
        ({
            let oq = obj.rotation.qv();
            let rc = qrot_fx(oq, (p.rel_coord.x@, p.rel_coord.y@, p.rel_coord.z@));
            let pv = (
                rc.0 + obj.location.x@ - cam.x@,
                rc.1 + obj.location.y@ - cam.y@,
                rc.2 + obj.location.z@ - cam.z@,
            );
            qrot_fx(camq, pv).0 <= 0
        }),
    ensures
        splat_point(camq, cam, pb, w, h, lights, obj, p, zs, gs) == (zs, gs),
{
}

/// The center-cell law: a single sample `d` ahead on the axis of an
/// origin camera with exact unit facing, its normal pointing back at the
/// camera, lit by one light at the camera, renders the densest glyph to
/// the buffer's center cell and leaves every other cell blank.
pub proof fn lemma_center_cell_brightest(
    camera: Camera,
    light: Light3D,
    obj: Object,
    d: int,
    w: int,
    h: int,
)
    requires
        camera.coord.x@ == 0 && camera.coord.y@ == 0 && camera.coord.z@ == 0,
        camera.facing.x@ == sc() && camera.facing.y@ == 0 && camera.facing.z@ == 0,
        cos_sin_spec(tdiv(camera.fov@, 2)).1 > 0,
        light.coord.x@ == 0 && light.coord.y@ == 0 && light.coord.z@ == 0,
        obj.location.x@ == 0 && obj.location.y@ == 0 && obj.location.z@ == 0,
        obj.rotation.qv() == (0int, 0int, 0int, sc()),
        obj.shape.points@.len() == 1,
        obj.shape.points@[0].rel_coord.x@ == d,
        obj.shape.points@[0].rel_coord.y@ == 0,
        obj.shape.points@[0].rel_coord.z@ == 0,
        obj.shape.points@[0].normal.x@ == -sc(),
        obj.shape.points@[0].normal.y@ == 0,
        obj.shape.points@[0].normal.z@ == 0,
        1 <= d <= 0x4000000000,
        1 <= w <= 65536,
        1 <= h <= 65536,
    ensures
        ({
            let cx = tdiv(tdiv(w * sc(), 2), sc());
            let cy = tdiv(tdiv(h * sc(), 2), sc());
            render_spec(camera, seq![light], seq![obj], w, h) == blank_glyphs(h * w).update(
                cy * w + cx,
                '@',
            )
        }),
{
    let p = obj.shape.points@[0];
    // The camera's facing decomposes to zero yaw and pitch, so the camera
    // rotation is the identity quaternion.
    assert(camera.facing.x@ * camera.facing.x@ == sc() * sc() && camera.facing.y@
        * camera.facing.y@ == 0 && 65536int * 65536int == sc() * sc()) by (nonlinear_arith)
        requires
            camera.facing.x@ == sc(),
            camera.facing.y@ == 0,
            sc() == 65536,
    ;
    assert(is_isqrt(65536int, 65536int * 65536int));
    lemma_isqrt_exists(sc() * sc());
    lemma_isqrt_unique(isqrt_spec(sc() * sc()), 65536int, sc() * sc());
    lemma_atan2_spec_zero_pos(sc());
    let camq = camera_quat(camera.facing);
    lemma_fxmul_zero(-sc());
    lemma_euler_zero_identity();
    assert(camq == (0int, 0int, 0int, sc()));
    // The sample's world position, depth and camera-space position.
    lemma_qrot_fx_identity((d, 0, 0));
    lemma_qrot_fx_identity((-sc(), 0, 0));
    let world = sample_world(obj, p);
    assert(world == (d, 0int, 0int));
    assert(is_isqrt(d, d * d + 0 * 0 + 0 * 0) && d * d >= 1) by (nonlinear_arith)
        requires
            d >= 1,
    ;
    lemma_isqrt_exists(d * d + 0 * 0 + 0 * 0);
    lemma_isqrt_unique(isqrt_spec(d * d + 0 * 0 + 0 * 0), d, d * d + 0 * 0 + 0 * 0);
    // A sample dead ahead projects to the buffer's center.
    let pb = plane_distance(camera.fov@, h);
    assert(0int * sc() == 0) by (nonlinear_arith);
    lemma_tdiv_mag(0int, d, 0int);
    assert(fxdiv(0, d) == 0);
    assert(fxdiv(0, d) * pb == 0) by (nonlinear_arith)
        requires
            fxdiv(0, d) == 0,
    ;
    lemma_tdiv_mag(0int, sc(), 0int);
    assert(screen_coord(0, d, pb, w) == tdiv(w * sc(), 2));
    assert(screen_coord(0, d, pb, h) == tdiv(h * sc(), 2));
    lemma_tdiv(w * sc(), 2);
    lemma_tdiv(h * sc(), 2);
    assert(0 <= tdiv(w * sc(), 2) < w * sc() && 0 <= tdiv(h * sc(), 2) < h * sc())
        by (nonlinear_arith)
        requires
            w >= 1,
            h >= 1,
            sc() == 65536,
            0 <= w * sc() - 2 * tdiv(w * sc(), 2) < 2,
            tdiv(w * sc(), 2) >= 0,
            0 <= h * sc() - 2 * tdiv(h * sc(), 2) < 2,
            tdiv(h * sc(), 2) >= 0,
    ;
    let cx = tdiv(tdiv(w * sc(), 2), sc());
    let cy = tdiv(tdiv(h * sc(), 2), sc());
    lemma_cell_of_screen(tdiv(w * sc(), 2), w);
    lemma_cell_of_screen(tdiv(h * sc(), 2), h);
    let cell = cy * w + cx;
    assert(sample_target(camq, camera.coord, pb, w, h, obj, p) == Some((cell, d)));
    lemma_row_major(cy, cx, w, h);
    assert(w * h == h * w) by (nonlinear_arith);
    // Shading at angle zero: the index maps past the ramp and is clamped
    // to the densest glyph.
    lemma_shade_facing(light, d);
    assert(sample_glyph_idx(seq![light], obj, p) == 13);
    // The fold over the single object and its single sample.
    let zs = blank_depths(h * w);
    let gs = blank_glyphs(h * w);
    assert(zs[cell] == i64::MAX);
    let st = splat_point(camq, camera.coord, pb, w, h, seq![light], obj, p, zs, gs);
    assert(ramp_spec()[13] == '@');
    assert(st.1 == gs.update(cell, '@'));
    assert(obj.shape.points@.drop_first() =~= Seq::<Point>::empty());
    assert(splat_points(
        camq,
        camera.coord,
        pb,
        w,
        h,
        seq![light],
        obj,
        obj.shape.points@,
        zs,
        gs,
    ) == splat_points(
        camq,
        camera.coord,
        pb,
        w,
        h,
        seq![light],
        obj,
        obj.shape.points@.drop_first(),
        st.0,
        st.1,
    ));
    assert(splat_points(
        camq,
        camera.coord,
        pb,
        w,
        h,
        seq![light],
        obj,
        obj.shape.points@,
        zs,
        gs,
    ) =~= st);
    assert(seq![obj].drop_first() =~= Seq::<Object>::empty());
    assert(seq![obj][0] == obj);
    let sto = splat_points(
        camq,
        camera.coord,
        pb,
        w,
        h,
        seq![light],
        obj,
        obj.shape.points@,
        zs,
        gs,
    );
    assert(splat_objects(camq, camera.coord, pb, w, h, seq![light], seq![obj], zs, gs)
        == splat_objects(
        camq,
        camera.coord,
        pb,
        w,
        h,
        seq![light],
        seq![obj].drop_first(),
        sto.0,
        sto.1,
    ));
    assert(splat_objects(
        camq,
        camera.coord,
        pb,
        w,
        h,
        seq![light],
        seq![obj].drop_first(),
        sto.0,
        sto.1,
    ) =~= sto);
    assert(splat_objects(camq, camera.coord, pb, w, h, seq![light], seq![obj], zs, gs).1
        == st.1);
}

/// The shading chain of a normal looking exactly back along the X axis at
/// a light `d` units behind it on that axis: the shading angle is zero
/// and the index clamps to the densest glyph.
proof fn lemma_shade_facing(light: Light3D, d: int)
    requires
        light.coord.x@ == 0 && light.coord.y@ == 0 && light.coord.z@ == 0,
        1 <= d <= 0x4000000000,
    ensures
        sample_shade(seq![light], (d, 0int, 0int), (-sc(), 0int, 0int)) == 13,
{
    assert(seq![light].last() == light);
    // The rotated normal renormalizes to itself.
    assert((-sc()) * (-sc()) == sc() * sc() && 0int * 0int == 0 && 65536int * 65536int == sc()
        * sc()) by (nonlinear_arith)
        requires
            sc() == 65536,
    ;
    assert(is_isqrt(65536int, 65536int * 65536int));
    lemma_isqrt_exists(sc() * sc());
    lemma_isqrt_unique(isqrt_spec(sc() * sc()), 65536int, sc() * sc());
    assert((-sc()) * sc() == -(sc() * sc())) by (nonlinear_arith);
    lemma_tdiv_neg(sc() * sc(), sc());
    lemma_tdiv_exact(sc(), sc());
    assert(0int * sc() == 0) by (nonlinear_arith);
    lemma_tdiv_mag(0int, sc(), 0int);
    let nn = (tdiv((-sc()) * sc(), isqrt_spec(sc() * sc())), 0int, 0int);
    assert(nn == (-sc(), 0int, 0int));
    // The light direction renormalizes to the negative X axis.
    let lvx = 0 - d;
    assert(lvx * lvx == d * d && d * d >= 1) by (nonlinear_arith)
        requires
            lvx == -d,
            d >= 1,
    ;
    assert(is_isqrt(d, lvx * lvx + 0 * 0 + 0 * 0)) by (nonlinear_arith)
        requires
            d >= 1,
            lvx * lvx == d * d,
    ;
    lemma_isqrt_exists(lvx * lvx + 0 * 0 + 0 * 0);
    lemma_isqrt_unique(isqrt_spec(lvx * lvx + 0 * 0 + 0 * 0), d, lvx * lvx + 0 * 0 + 0 * 0);
    assert(lvx * sc() == -(sc() * d)) by (nonlinear_arith)
        requires
            lvx == -d,
    ;
    lemma_tdiv_neg(sc() * d, d);
    lemma_tdiv_exact(sc(), d);
    lemma_tdiv_mag(0int, d, 0int);
    // Dot product, magnitudes and the clamped ratio all sit at one unit.
    assert((-sc()) * (-sc()) + 0int * 0int + 0int * 0int == sc() * sc()) by (nonlinear_arith);
    lemma_tdiv_exact(sc(), sc());
    assert(tdiv(sc() * sc(), sc()) == sc());
    assert(fxmul(sc(), sc()) == sc());
    assert(fxdiv(sc(), sc()) == sc()) by {
        assert(sc() * sc() >= 0) by (nonlinear_arith);
    }
    // Arccosine of one is zero, and the rounded index clamps at the
    // densest glyph.
    assert(sc() * sc() - sc() * sc() == 0);
    assert(is_isqrt(0int, 0int));
    lemma_isqrt_exists(0);
    lemma_isqrt_unique(isqrt_spec(0), 0int, 0);
    lemma_atan2_spec_zero_pos(sc());
    assert(acos_spec(sc()) == 0);
    lemma_tdiv_mag(0int * sc(), PI_FX as int, 0int);
    assert((sc() - 0) * 14 + 32768 == 950272) by (nonlinear_arith)
        requires
            sc() == 65536,
    ;
    assert(tdiv(950272, sc()) == 14);
}

/// One object's samples splatted in order.\n\n/// One object's samples splatted in order.
pub open spec fn splat_points(
    camq: (int, int, int, int),
    cam: Coord,
    pb: int,
    w: int,
    h: int,
    lights: Seq<Light3D>,
    obj: Object,
    pts: Seq<Point>,
    zs: Seq<i64>,
    gs: Seq<char>,
) -> (Seq<i64>, Seq<char>)
    decreases pts.len(),
{
    if pts.len() == 0 {
        (zs, gs)
    } else {
        let st = splat_point(camq, cam, pb, w, h, lights, obj, pts[0], zs, gs);
        splat_points(camq, cam, pb, w, h, lights, obj, pts.drop_first(), st.0, st.1)
    }
}

/// Every object's samples splatted in scene order.
pub open spec fn splat_objects(
    camq: (int, int, int, int),
    cam: Coord,
    pb: int,
    w: int,
    h: int,
    lights: Seq<Light3D>,
    objs: Seq<Object>,
    zs: Seq<i64>,
    gs: Seq<char>,
) -> (Seq<i64>, Seq<char>)
    decreases objs.len(),
{
    if objs.len() == 0 {
        (zs, gs)
    } else {
        let st = splat_points(
            camq,
            cam,
            pb,
            w,
            h,
            lights,
            objs[0],
            objs[0].shape.points@,
            zs,
            gs,
        );
        splat_objects(camq, cam, pb, w, h, lights, objs.drop_first(), st.0, st.1)
    }
}

/// The camera-space orientation the renderer rotates by: the camera's
/// facing decomposed into yaw and pitch, negated, and rebuilt as a
/// quaternion.
pub open spec fn camera_quat(facing: Vector3D) -> (int, int, int, int) {
    let yaw = atan2_spec(facing.y@, facing.x@);
    let pitch = atan2_spec(facing.z@, isqrt_spec(facing.x@ * facing.x@ + facing.y@ * facing.y@));
    quat_or_identity(euler_quat(fxmul(0, -sc()), fxmul(pitch, -sc()), fxmul(yaw, -sc())))
}

/// The projection-plane distance for a field of view and buffer height:
/// half the height over the tangent of half the field of view.
pub open spec fn plane_distance(fov: int, h: int) -> int {
    let cs = cos_sin_spec(tdiv(fov, 2));
    fxmul(fxdiv(cs.0, cs.1), h * 32768)
}

/// The whole picture: every object's samples splatted nearest-first onto
/// blank stores, or an untouched blank frame when the field of view is
/// too degenerate to project through.
pub open spec fn render_spec(
    camera: Camera,
    lights: Seq<Light3D>,
    objects: Seq<Object>,
    w: int,
    h: int,
) -> Seq<char> {
    let cs = cos_sin_spec(tdiv(camera.fov@, 2));
    if cs.1 <= 0 {
        blank_glyphs(h * w)
    } else {
        splat_objects(
            camera_quat(camera.facing),
            camera.coord,
            plane_distance(camera.fov@, h),
            w,
            h,
            lights,
            objects,
            blank_depths(h * w),
            blank_glyphs(h * w),
        ).1
    }
}

/// A scene with no objects renders to the blank frame.
pub proof fn lemma_render_no_objects(camera: Camera, lights: Seq<Light3D>, w: int, h: int)
    ensures
        render_spec(camera, lights, Seq::<Object>::empty(), w, h) == blank_glyphs(h * w),
{
}

/// Splatting a further sample after a run of samples is one more step of
/// the fold.
proof fn lemma_splat_points_push(
    camq: (int, int, int, int),
    cam: Coord,
    pb: int,
    w: int,
    h: int,
    lights: Seq<Light3D>,
    obj: Object,
    pts: Seq<Point>,
    p: Point,
    zs: Seq<i64>,
    gs: Seq<char>,
)
    ensures
        splat_points(camq, cam, pb, w, h, lights, obj, pts.push(p), zs, gs) == ({
            let st = splat_points(camq, cam, pb, w, h, lights, obj, pts, zs, gs);
            splat_point(camq, cam, pb, w, h, lights, obj, p, st.0, st.1)
        }),
    decreases pts.len(),
{
    if pts.len() == 0 {
        assert(pts.push(p).drop_first() =~= pts);
        assert(pts.push(p)[0] == p);
        let st0 = splat_point(camq, cam, pb, w, h, lights, obj, p, zs, gs);
        assert(splat_points(camq, cam, pb, w, h, lights, obj, pts.push(p), zs, gs)
            == splat_points(camq, cam, pb, w, h, lights, obj, pts, st0.0, st0.1));
        assert(splat_points(camq, cam, pb, w, h, lights, obj, pts, st0.0, st0.1) == st0);
        assert(splat_points(camq, cam, pb, w, h, lights, obj, pts, zs, gs) == (zs, gs));
    } else {
        assert(pts.push(p)[0] == pts[0]);
        assert(pts.push(p).drop_first() =~= pts.drop_first().push(p));
        let st = splat_point(camq, cam, pb, w, h, lights, obj, pts[0], zs, gs);
        assert(splat_points(camq, cam, pb, w, h, lights, obj, pts.push(p), zs, gs)
            == splat_points(
            camq,
            cam,
            pb,
            w,
            h,
            lights,
            obj,
            pts.drop_first().push(p),
            st.0,
            st.1,
        ));
        lemma_splat_points_push(camq, cam, pb, w, h, lights, obj, pts.drop_first(), p, st.0, st.1);
        assert(splat_points(camq, cam, pb, w, h, lights, obj, pts, zs, gs) == splat_points(
            camq,
            cam,
            pb,
            w,
            h,
            lights,
            obj,
            pts.drop_first(),
            st.0,
            st.1,
        ));
    }
}

/// Splatting a further object after a run of objects is one more step of
/// the fold.
proof fn lemma_splat_objects_push(
    camq: (int, int, int, int),
    cam: Coord,
    pb: int,
    w: int,
    h: int,
    lights: Seq<Light3D>,
    objs: Seq<Object>,
    o: Object,
    zs: Seq<i64>,
    gs: Seq<char>,
)
    ensures
        splat_objects(camq, cam, pb, w, h, lights, objs.push(o), zs, gs) == ({
            let st = splat_objects(camq, cam, pb, w, h, lights, objs, zs, gs);
            splat_points(camq, cam, pb, w, h, lights, o, o.shape.points@, st.0, st.1)
        }),
    decreases objs.len(),
{
    if objs.len() == 0 {
        assert(objs.push(o).drop_first() =~= objs);
        assert(objs.push(o)[0] == o);
        let st0 = splat_points(camq, cam, pb, w, h, lights, o, o.shape.points@, zs, gs);
        assert(splat_objects(camq, cam, pb, w, h, lights, objs.push(o), zs, gs)
            == splat_objects(camq, cam, pb, w, h, lights, objs, st0.0, st0.1));
        assert(splat_objects(camq, cam, pb, w, h, lights, objs, st0.0, st0.1) == st0);
        assert(splat_objects(camq, cam, pb, w, h, lights, objs, zs, gs) == (zs, gs));
    } else {
        assert(objs.push(o)[0] == objs[0]);
        assert(objs.push(o).drop_first() =~= objs.drop_first().push(o));
        let st = splat_points(
            camq,
            cam,
            pb,
            w,
            h,
            lights,
            objs[0],
            objs[0].shape.points@,
            zs,
            gs,
        );
        assert(splat_objects(camq, cam, pb, w, h, lights, objs.push(o), zs, gs)
            == splat_objects(camq, cam, pb, w, h, lights, objs.drop_first().push(o), st.0, st.1));
        lemma_splat_objects_push(camq, cam, pb, w, h, lights, objs.drop_first(), o, st.0, st.1);
        assert(splat_objects(camq, cam, pb, w, h, lights, objs, zs, gs) == splat_objects(
            camq,
            cam,
            pb,
            w,
            h,
            lights,
            objs.drop_first(),
            st.0,
            st.1,
        ));
    }
}

/// The shading index a single light gives a sample: the angle between
/// the surface normal and the direction toward the light, mapped linearly
/// from [0, pi] onto the ramp, rounded to the nearest step and clamped to
/// the densest glyph, so a perfectly aligned sample shades brightest.  A
/// light exactly on the sample, or a degenerate normal, reads as the
/// dimmest index.
fn light_index(p_normal: &Vector3D, point_coord: Coord, light: &Light3D) -> (r: i64)
    requires
        p_normal.is_bounded(0x100000000),
        point_coord.is_bounded(0x80000000),
        light.coord.is_bounded(scene_lim()),
    ensures
        r as int == light_index_spec(
            (p_normal.x@, p_normal.y@, p_normal.z@),
            (point_coord.x@, point_coord.y@, point_coord.z@),
            (light.coord.x@, light.coord.y@, light.coord.z@),
        ),
        0 <= r <= 13,
{
    let lv = light.coord.sub(point_coord);
    if lv.x.raw == 0 && lv.y.raw == 0 && lv.z.raw == 0 {
        return 0;
    }
    let lvec = Vector3D { x: lv.x, y: lv.y, z: lv.z };
    proof {
        assert(lvec.sumsq() >= 1) by (nonlinear_arith)
            requires
                !(lvec.x@ == 0 && lvec.y@ == 0 && lvec.z@ == 0),
                lvec.sumsq() == lvec.x@ * lvec.x@ + lvec.y@ * lvec.y@ + lvec.z@ * lvec.z@,
        ;
    }
    let lp = lvec.normalise();
    let m1 = p_normal.magnitude();
    let m2 = lp.magnitude();
    let dot = p_normal.dot(lp);
    proof {
        lemma_mul_bound(m1@, m2@, 0x400000000, 0x400000000);
        lemma_tdiv_mag(m1@ * m2@, sc(), 0x100000000000000);
    }
    let denom = m1.mul(m2);
    if denom.raw <= 0 {
        return 0;
    }
    let t = clamped_ratio(dot, denom);
    let ang = acos(t);
    let u128v: i128 = (ang.raw as i128) * (SCALE as i128) / (PI_FX as i128);
    proof {
        lemma_tdiv(ang@ * sc(), PI_FX as int);
        lemma_tdiv_mag(ang@ * sc(), PI_FX as int, sc());
    }
    let u: i64 = u128v as i64;
    let v: i64 = SCALE - u;
    proof {
        lemma_tdiv(v as int * 14 + 32768, sc());
        lemma_tdiv_mag(v as int * 14 + 32768, sc(), 15);
    }
    let idx: i64 = (v * 14 + 32768) / SCALE;
    if idx > 13 {
        13
    } else {
        idx
    }
}

/// The shading index for a sample under a list of lights: each light's
/// result overwrites the previous one, so the last light in list order
/// decides; with no lights the index is the dimmest.
fn shade(p_normal: &Vector3D, point_coord: Coord, lights: &Vec<Light3D>) -> (r: i64)
    requires
        p_normal.is_bounded(0x100000000),
        point_coord.is_bounded(0x80000000),
        forall|i: int|
            0 <= i < lights@.len() ==> (#[trigger] lights@[i]).coord.is_bounded(scene_lim()),
    ensures
        r as int == if lights@.len() == 0 {
            0int
        } else {
            light_index_spec(
                (p_normal.x@, p_normal.y@, p_normal.z@),
                (point_coord.x@, point_coord.y@, point_coord.z@),
                (lights@.last().coord.x@, lights@.last().coord.y@, lights@.last().coord.z@),
            )
        },
        0 <= r <= 13,
        lights@.len() == 0 ==> r == 0,
{
    let mut lumi_index: i64 = 0;
    let n = lights.len();
    let mut i: usize = 0;
    while i < n
        invariant
            0 <= lumi_index <= 13,
            n == lights@.len(),
            0 <= i <= n,
            i == 0 ==> lumi_index == 0,
            i >= 1 ==> lumi_index as int == light_index_spec(
                (p_normal.x@, p_normal.y@, p_normal.z@),
                (point_coord.x@, point_coord.y@, point_coord.z@),
                (
                    lights@[i - 1].coord.x@,
                    lights@[i - 1].coord.y@,
                    lights@[i - 1].coord.z@,
                ),
            ),
            p_normal.is_bounded(0x100000000),
            point_coord.is_bounded(0x80000000),
            forall|j: int|
                0 <= j < lights@.len() ==> (#[trigger] lights@[j]).coord.is_bounded(scene_lim()),
        decreases n - i,
    {
        lumi_index = light_index(p_normal, point_coord, &lights[i]);
        i = i + 1;
    }
    lumi_index
}

/// Renders a scene's objects into a fresh character buffer.
///
/// Samples behind the camera or outside the buffer are discarded; among
/// samples landing on one cell the strictly nearest wins; a winning
/// sample's shading index selects the glyph, and an index outside the
/// ramp leaves the cell unchanged.
#[verifier::rlimit(50)]
pub fn rasterize(
    camera: &Camera,
    lights: &Vec<Light3D>,
    objects: &Vec<Object>,
    size_x: usize,
    size_y: usize,
) -> (r: SimpleTerminalBuffer)
    requires
        camera.coord.is_bounded(scene_lim()),
        camera.facing.is_bounded(0x100000000),
        0 < camera.fov@ < PI_FX as int,
        size_x <= 65536,
        size_y <= 65536,
        size_x * size_y <= 0x40000000,
        forall|i: int|
            0 <= i < lights@.len() ==> (#[trigger] lights@[i]).coord.is_bounded(scene_lim()),
        forall|i: int|
            0 <= i < objects@.len() ==> {
                let o = #[trigger] objects@[i];
                o.location.is_bounded(scene_lim()) && o.rotation.is_wf()
                    && o.shape.is_bounded(scene_lim())
            },
    ensures
        r.size_x == size_x,
        r.size_y == size_y,
        r.wf(),
        r.buffer@ == render_spec(*camera, lights@, objects@, size_x as int, size_y as int),
        forall|i: int|
            0 <= i < r.buffer@.len() ==> (#[trigger] r.buffer@[i]) == ' ' || ramp_spec().contains(
                r.buffer@[i],
            ),
{
    let ramp = luminance_ramp();
    let view_coord = camera.coord;
    let v_a = camera.angle();
    let neg_a = v_a.mul(Fx { raw: -SCALE });
    proof {
        lemma_tdiv_mag(v_a.roll@ * (-65536), sc(), PI_FX as int);
        lemma_tdiv_mag(v_a.pitch@ * (-65536), sc(), PI_FX as int);
        lemma_tdiv_mag(v_a.yaw@ * (-65536), sc(), PI_FX as int);
    }
    let cam_rot = Rotator::from_global(neg_a);
    proof {
        assert(cam_rot.qv() == camera_quat(camera.facing));
    }
    let mut projected_buffer = SimpleTerminalBuffer::new(size_x, size_y);
    let zn: usize = size_x * size_y;
    let mut z_buffer: Vec<i64> = Vec::new();
    let mut zi: usize = 0;
    while zi < zn
        invariant
            0 <= zi <= zn,
            z_buffer@.len() == zi,
            forall|j: int| 0 <= j < zi as int ==> z_buffer@[j] == i64::MAX,
        decreases zn - zi,
    {
        z_buffer.push(i64::MAX);
        zi = zi + 1;
    }
    proof {
        assert(size_x as int * size_y as int == size_y as int * size_x as int)
            by (nonlinear_arith);
        assert(z_buffer@ =~= blank_depths(size_y as int * size_x as int));
        assert(projected_buffer.buffer@ =~= blank_glyphs(size_y as int * size_x as int));
    }
    let fovcs = cos_sin(Fx { raw: camera.fov.get().raw / 2 });
    proof {
        lemma_tdiv_mag(camera.fov@, 2, vlim());
    }
    let c = fovcs.0;
    let s = fovcs.1;
    if s.raw <= 0 {
        proof {
            assert(projected_buffer.buffer@ == render_spec(
                *camera,
                lights@,
                objects@,
                size_x as int,
                size_y as int,
            ));
        }
        return projected_buffer;
    }
    proof {
        lemma_fxdiv_fits(c@, s@);
        assert(bounded(c@ * sc(), 0x100000000 * s@)) by (nonlinear_arith)
            requires
                -65536 <= c@ <= 65536,
                s@ >= 1,
        ;
        lemma_tdiv_mag(c@ * sc(), s@, 0x100000000);
    }
    let inv_tan = c.div(s);
    let half_h = Fx { raw: (size_y as i64) * 32768 };
    proof {
        lemma_mul_bound(inv_tan@, half_h@, 0x100000000, 0x80000000);
        lemma_tdiv_mag(inv_tan@ * half_h@, sc(), 0x1000000000000);
    }
    let pb_dis = inv_tan.mul(half_h);
    proof {
        assert(pb_dis@ == plane_distance(camera.fov@, size_y as int));
    }
    let num_objects = objects.len();
    let mut oi: usize = 0;
    while oi < num_objects
        invariant
            num_objects == objects@.len(),
            0 <= oi <= num_objects,
            projected_buffer.size_x == size_x,
            projected_buffer.size_y == size_y,
            projected_buffer.wf(),
            z_buffer@.len() == size_x * size_y,
            size_x <= 65536,
            size_y <= 65536,
            size_x * size_y <= 0x40000000,
            bounded(pb_dis@, 0x1000000000000),
            cam_rot.is_wf(),
            cam_rot.qv() == camera_quat(camera.facing),
            pb_dis@ == plane_distance(camera.fov@, size_y as int),
            cos_sin_spec(tdiv(camera.fov@, 2)).1 > 0,
            view_coord == camera.coord,
            view_coord.is_bounded(scene_lim()),
            ramp@ == ramp_spec(),
            z_buffer@ == splat_objects(
                camera_quat(camera.facing),
                camera.coord,
                pb_dis@,
                size_x as int,
                size_y as int,
                lights@,
                objects@.take(oi as int),
                blank_depths(size_y as int * size_x as int),
                blank_glyphs(size_y as int * size_x as int),
            ).0,
            projected_buffer.buffer@ == splat_objects(
                camera_quat(camera.facing),
                camera.coord,
                pb_dis@,
                size_x as int,
                size_y as int,
                lights@,
                objects@.take(oi as int),
                blank_depths(size_y as int * size_x as int),
                blank_glyphs(size_y as int * size_x as int),
            ).1,
            forall|i: int|
                0 <= i < lights@.len() ==> (#[trigger] lights@[i]).coord.is_bounded(scene_lim()),
            forall|i: int|
                0 <= i < objects@.len() ==> {
                    let o = #[trigger] objects@[i];
                    o.location.is_bounded(scene_lim()) && o.rotation.is_wf()
                        && o.shape.is_bounded(scene_lim())
                },
            forall|i: int|
                0 <= i < projected_buffer.buffer@.len() ==> (#[trigger] projected_buffer.buffer@[i])
                    == ' ' || ramp_spec().contains(projected_buffer.buffer@[i]),
        decreases num_objects - oi,
    {
        let obj = &objects[oi];
        let ghost z0 = z_buffer@;
        let ghost g0 = projected_buffer.buffer@;
        let num_points = obj.shape.points.len();
        let mut pi: usize = 0;
        while pi < num_points
            invariant
                num_objects == objects@.len(),
                0 <= oi < num_objects,
                num_points == obj.shape.points@.len(),
                obj == objects@[oi as int],
                0 <= pi <= num_points,
                projected_buffer.size_x == size_x,
                projected_buffer.size_y == size_y,
                projected_buffer.wf(),
                z_buffer@.len() == size_x * size_y,
                size_x <= 65536,
                size_y <= 65536,
                size_x * size_y <= 0x40000000,
                bounded(pb_dis@, 0x1000000000000),
                cam_rot.is_wf(),
                cam_rot.qv() == camera_quat(camera.facing),
                view_coord == camera.coord,
                view_coord.is_bounded(scene_lim()),
                ramp@ == ramp_spec(),
                z0 == splat_objects(
                    camera_quat(camera.facing),
                    camera.coord,
                    pb_dis@,
                    size_x as int,
                    size_y as int,
                    lights@,
                    objects@.take(oi as int),
                    blank_depths(size_y as int * size_x as int),
                    blank_glyphs(size_y as int * size_x as int),
                ).0,
                g0 == splat_objects(
                    camera_quat(camera.facing),
                    camera.coord,
                    pb_dis@,
                    size_x as int,
                    size_y as int,
                    lights@,
                    objects@.take(oi as int),
                    blank_depths(size_y as int * size_x as int),
                    blank_glyphs(size_y as int * size_x as int),
                ).1,
                z_buffer@ == splat_points(
                    camera_quat(camera.facing),
                    camera.coord,
                    pb_dis@,
                    size_x as int,
                    size_y as int,
                    lights@,
                    *obj,
                    obj.shape.points@.take(pi as int),
                    z0,
                    g0,
                ).0,
                projected_buffer.buffer@ == splat_points(
                    camera_quat(camera.facing),
                    camera.coord,
                    pb_dis@,
                    size_x as int,
                    size_y as int,
                    lights@,
                    *obj,
                    obj.shape.points@.take(pi as int),
                    z0,
                    g0,
                ).1,
                forall|i: int|
                    0 <= i < lights@.len() ==> (#[trigger] lights@[i]).coord.is_bounded(
                        scene_lim(),
                    ),
                forall|i: int|
                    0 <= i < objects@.len() ==> {
                        let o = #[trigger] objects@[i];
                        o.location.is_bounded(scene_lim()) && o.rotation.is_wf()
                            && o.shape.is_bounded(scene_lim())
                    },
                forall|i: int|
                    0 <= i < projected_buffer.buffer@.len() ==> (
                    #[trigger] projected_buffer.buffer@[i]) == ' ' || ramp_spec().contains(
                        projected_buffer.buffer@[i],
                    ),
            decreases num_points - pi,
        {
            let ghost pre_z = z_buffer@;
            let ghost pre_g = projected_buffer.buffer@;
            let point = obj.shape.points[pi];
            let rot_point = point.rotate(&obj.rotation);
            let point_coord = rot_point.rel_coord.add(obj.location);
            let pv = point_coord.sub(view_coord);
            let pv_vec = Vector3D { x: pv.x, y: pv.y, z: pv.z };
            let pv_dis = pv_vec.magnitude();
            let cpv = pv_vec.rotate(&cam_rot);
            if let Some((buffer_x, buffer_y)) = project_point(cpv, pb_dis, size_x, size_y) {
                let zlen = z_buffer.len();
                proof {
                    lemma_row_major(
                        buffer_y as int,
                        buffer_x as int,
                        size_x as int,
                        size_y as int,
                    );
                    assert(size_x as int * size_y as int == size_y as int * size_x as int)
                        by (nonlinear_arith);
                    assert((buffer_y as int) * (size_x as int) + (buffer_x as int) < zlen as int);
                }
                let zidx: usize = buffer_y * size_x + buffer_x;
                if z_buffer[zidx] > pv_dis.raw {
                    z_buffer.set(zidx, pv_dis.raw);
                    let rn = rot_point.normal;
                    let lumi_index: i64 = if rn.x.raw == 0 && rn.y.raw == 0 && rn.z.raw == 0 {
                        0
                    } else {
                        proof {
                            assert(rn.sumsq() >= 1) by (nonlinear_arith)
                                requires
                                    !(rn.x@ == 0 && rn.y@ == 0 && rn.z@ == 0),
                                    rn.sumsq() == rn.x@ * rn.x@ + rn.y@ * rn.y@ + rn.z@ * rn.z@,
                            ;
                        }
                        let p_normal = rn.normalise();
                        shade(&p_normal, point_coord, lights)
                    };
                    let glyph = ramp[lumi_index as usize];
                    proof {
                        assert(ramp_spec().contains(ramp@[lumi_index as int]));
                    }
                    projected_buffer.set(buffer_y, buffer_x, glyph);
                }
            }
            proof {
                let cq = camera_quat(camera.facing);
                let pts = obj.shape.points@;
                let stp = splat_point(
                    cq,
                    camera.coord,
                    pb_dis@,
                    size_x as int,
                    size_y as int,
                    lights@,
                    *obj,
                    pts[pi as int],
                    pre_z,
                    pre_g,
                );
                assert(z_buffer@ == stp.0 && projected_buffer.buffer@ == stp.1);
                assert(pts.take(pi as int + 1) =~= pts.take(pi as int).push(pts[pi as int]));
                lemma_splat_points_push(
                    cq,
                    camera.coord,
                    pb_dis@,
                    size_x as int,
                    size_y as int,
                    lights@,
                    *obj,
                    pts.take(pi as int),
                    pts[pi as int],
                    z0,
                    g0,
                );
            }
            pi = pi + 1;
        }
        proof {
            let cq = camera_quat(camera.facing);
            assert(objects@.take(oi as int + 1) =~= objects@.take(oi as int).push(
                objects@[oi as int],
            ));
            assert(obj.shape.points@.take(num_points as int) =~= obj.shape.points@);
            lemma_splat_objects_push(
                cq,
                camera.coord,
                pb_dis@,
                size_x as int,
                size_y as int,
                lights@,
                objects@.take(oi as int),
                objects@[oi as int],
                blank_depths(size_y as int * size_x as int),
                blank_glyphs(size_y as int * size_x as int),
            );
        }
        oi = oi + 1;
    }
    proof {
        assert(objects@.take(num_objects as int) =~= objects@);
    }
    projected_buffer
}

/// Perspective renderer implementation over a whole scene.  The output
/// is a function of the scene alone: `render_spec` pins every cell, so
/// two renders of equal scenes return equal buffers.
pub fn pers_proj(view: &Scene) -> (r: SimpleTerminalBuffer)
    requires
        view.wf(),
    ensures
        r.size_x == view.buffer.size_x,
        r.size_y == view.buffer.size_y,
        r.wf(),
        r.buffer@ == render_spec(
            view.camera,
            view.lights@,
            view.objects@,
            view.buffer.size_x as int,
            view.buffer.size_y as int,
        ),
        forall|i: int|
            0 <= i < r.buffer@.len() ==> (#[trigger] r.buffer@[i]) == ' ' || ramp_spec().contains(
                r.buffer@[i],
            ),
{
    rasterize(&view.camera, &view.lights, &view.objects, view.buffer.size_x, view.buffer.size_y)
}

} // verus!
