//! The raycasting renderer: per screen cell, a ray through the camera's
//! projection plane is intersected against every triangle, the nearest hit
//! is shaded by angle and distance, and the cells together form the pixel
//! buffer.  Rows are rendered in parallel: every cell is independent.

use vstd::prelude::*;

use rayon::iter::{IntoParallelIterator, ParallelIterator};

use crate::camera::Camera;
use crate::collision::v3_zero;
use crate::fx::{
    abs, clamp, div_t, fx_clamp, fx_div, fx_mul, sdiv, smul, lemma_div_t_bound,
    lemma_div_t_cancel, lemma_smul_bound, lemma_smul_sign, lemma_sqrt_t, SCALE,
};
use crate::mesh::Mesh;
use crate::tri::{
    lemma_cross_sq_fits, s_hit_mt, s_tri_cross, tri_fits, Tri, T3, EDGE_LIMIT, FAR, GEO_LIMIT,
    RAY_LIMIT,
};
use crate::vec3::{
    in_range, lemma_pair_fits, lemma_rotate_range, ori_valid, s_dot, s_mag, s_rotate, s_sub, Vec3,
    V3,
};

verus! {

/// The distance at which geometry fades fully to black.
pub const RENDER_DIST: i64 = 30_000;

/// The widest screen the renderer accepts.
pub const MAX_W: usize = 500;

/// The tallest screen the renderer accepts.
pub const MAX_H: usize = 250;

/// The screen: a width and height of character cells.
#[derive(Clone, Copy, Debug)]
pub struct Screen {
    pub w: usize,
    pub h: usize,
}

/// A color channel is a nonnegative fixed-point value of at most a
/// thousand: the level palette stays within 255, while special glow faces
/// go brighter and saturate only at display time.
pub open spec fn tri_color_ok(t: T3) -> bool {
    &&& 0 <= t.color.x <= 1_000_000
    &&& 0 <= t.color.y <= 1_000_000
    &&& 0 <= t.color.z <= 1_000_000
}

/// What the renderer asks of its inputs: a bounded screen, a valid
/// orientation, a positive focus length, the camera within the world and
/// every triangle within the geometry bounds with a sane color.
pub open spec fn render_inputs_ok(cam: Camera, tris: Seq<T3>, w: int, h: int) -> bool {
    &&& 1 <= w <= MAX_W as int
    &&& 1 <= h <= MAX_H as int
    &&& ori_valid(cam.rotation)
    &&& 0 < cam.focus_length <= 1_000_000
    &&& in_range(cam.pos@, GEO_LIMIT as int)
    &&& forall|j: int| 0 <= j < tris.len() ==> tri_fits(#[trigger] tris[j]) && tri_color_ok(tris[j])
}

/// Half the smaller screen dimension (with height doubled to compensate for
/// character cells being twice as tall as wide), in thousandths.
pub open spec fn s_min_dim(w: int, h: int) -> int {
    (if w <= 2 * h {
        w
    } else {
        2 * h
    }) * 500
}

/// The ray through screen cell `(x, y)` in camera space: screen coordinates
/// recentred and divided by `s_min_dim`, at depth `focus`.
pub open spec fn s_pixel_ray(w: int, h: int, focus: int, x: int, y: int) -> V3 {
    V3 {
        x: sdiv(1000 * x - 500 * w, s_min_dim(w, h)),
        y: sdiv(2000 * y - 500 * h, s_min_dim(w, h)),
        z: focus,
    }
}

/// The world-space ray direction of a screen cell: the camera-space ray
/// rotated by the camera's orientation.
pub open spec fn s_ray_dir(cam: Camera, w: int, h: int, x: int, y: int) -> V3 {
    s_rotate(s_pixel_ray(w, h, cam.focus_length as int, x, y), cam.rotation)
}

/// The scan for the nearest hit: every triangle in order, keeping the first
/// strictly-closer hit; misses leave the running distance at `FAR`.
pub open spec fn s_scan(tris: Seq<T3>, ro: V3, rd: V3) -> (int, Option<int>)
    decreases tris.len(),
{
    if tris.len() == 0 {
        (FAR as int, None::<int>)
    } else {
        let prev = s_scan(tris.drop_last(), ro, rd);
        let hd = s_hit_mt(tris.last(), ro, rd);
        if hd.0 && hd.1 < prev.0 {
            (hd.1, Some(tris.len() - 1))
        } else {
            prev
        }
    }
}

/// The angular shading factor: the absolute cosine between the triangle's
/// normal direction and the ray, clamped into `[1/2, 1]`; a degenerate
/// triangle or ray gets no angular attenuation.
pub open spec fn s_shade_factor(t: T3, rd: V3) -> int {
    let c = s_tri_cross(t);
    let num = abs(s_dot(c, rd));
    let den = smul(s_mag(rd), s_mag(c));
    if den == 0 {
        1000
    } else {
        clamp(sdiv(num, den), 500, 1000)
    }
}

/// Linear fog: full brightness at distance zero, black at `RENDER_DIST` and
/// beyond.
pub open spec fn s_attenuation(dist: int) -> int {
    1000 - sdiv(dist, RENDER_DIST as int)
}

/// A negative channel is clamped to black.
pub open spec fn max0(v: int) -> int {
    if v < 0 {
        0
    } else {
        v
    }
}

/// The shaded color of a hit: the triangle's color scaled by the angular
/// factor, then by the fog, clamped to never go below black.
pub open spec fn s_shade(t: T3, rd: V3, dist: int) -> V3 {
    let f = s_shade_factor(t, rd);
    let a = s_attenuation(dist);
    V3 {
        x: max0(smul(smul(t.color.x, f), a)),
        y: max0(smul(smul(t.color.y, f), a)),
        z: max0(smul(smul(t.color.z, f), a)),
    }
}

/// The color of one screen cell: the shaded nearest hit, or black.
pub open spec fn s_pixel_color(cam: Camera, tris: Seq<T3>, w: int, h: int, x: int, y: int) -> V3 {
    let rd = s_ray_dir(cam, w, h, x, y);
    let sc = s_scan(tris, cam.pos@, rd);
    match sc.1 {
        Some(i) => s_shade(tris[i], rd, sc.0),
        None => v3_zero(),
    }
}

/// One row of the pixel buffer.
pub open spec fn s_row(cam: Camera, tris: Seq<T3>, w: int, h: int, y: int) -> Seq<V3> {
    Seq::new(w as nat, |x: int| s_pixel_color(cam, tris, w, h, x, y))
}

/// The whole pixel buffer, row-major.
pub open spec fn s_buffer(cam: Camera, tris: Seq<T3>, w: int, h: int) -> Seq<Seq<V3>> {
    Seq::new(h as nat, |y: int| s_row(cam, tris, w, h, y))
}

/// The world-space ray direction of a screen cell.
fn ray_dir(camera: &Camera, w: usize, h: usize, x: usize, y: usize) -> (r: Vec3)
    requires
        1 <= w <= MAX_W,
        1 <= h <= MAX_H,
        x < w,
        y < h,
        ori_valid(camera.rotation),
        0 < camera.focus_length <= 1_000_000,
    ensures
        r@ == s_ray_dir(*camera, w as int, h as int, x as int, y as int),
        in_range(r@, RAY_LIMIT as int),
{
    let two_h = 2 * h;
    let md: i64 = (if w <= two_h {
        w as i64
    } else {
        two_h as i64
    }) * 500;
    let nx: i64 = (x as i64) * 1000 - (w as i64) * 500;
    let ny: i64 = (y as i64) * 2000 - (h as i64) * 500;
    proof {
        lemma_div_t_bound(nx * 1000, md as int);
        lemma_div_t_bound(ny * 1000, md as int);
        assert(abs(nx as int * 1000) / (md as int) <= 1_000_000) by (nonlinear_arith)
            requires
                abs(nx as int) <= 250_000,
                md >= 500,
        ;
        assert(abs(ny as int * 1000) / (md as int) <= 1_000_000) by (nonlinear_arith)
            requires
                abs(ny as int) <= 500_000,
                md >= 500,
        ;
    }
    let px = fx_div(nx, md);
    let py = fx_div(ny, md);
    let pix = Vec3 { x: px, y: py, z: camera.focus_length };
    proof {
        lemma_rotate_range(pix@, camera.rotation, 1_000_000);
    }
    pix.rotate(&camera.rotation)
}

/// The shaded color of a hit triangle.
fn shade_hit(tri: &Tri, rd: Vec3, dist: i64) -> (r: Vec3)
    requires
        tri_fits(tri@),
        tri_color_ok(tri@),
        in_range(rd@, RAY_LIMIT as int),
        dist >= 0,
    ensures
        r@ == s_shade(tri@, rd@, dist as int),
{
    let ghost el = EDGE_LIMIT as int;
    let ghost rl = RAY_LIMIT as int;
    let ghost cb = 2 * (el * el / 1000);
    let e1 = tri.v1.sub(tri.v0);
    let e2 = tri.v2.sub(tri.v0);
    proof {
        lemma_pair_fits(e1@, e2@, el, el);
    }
    let c = e1.cross(e2);
    proof {
        lemma_pair_fits(c@, rd@, cb, rl);
        lemma_cross_sq_fits(c@);
        lemma_pair_fits(rd@, rd@, rl, rl);
        crate::fx::lemma_smul_square_nonneg(rd@.x);
        crate::fx::lemma_smul_square_nonneg(rd@.y);
        crate::fx::lemma_smul_square_nonneg(rd@.z);
        crate::fx::lemma_smul_square_nonneg(c@.x);
        crate::fx::lemma_smul_square_nonneg(c@.y);
        crate::fx::lemma_smul_square_nonneg(c@.z);
    }
    let cd = c.dot(rd);
    let num = if cd < 0 {
        -cd
    } else {
        cd
    };
    let mag_rd = rd.abs();
    let mag_c = c.abs();
    proof {
        lemma_sqrt_t(s_dot(rd@, rd@) * (SCALE as int));
        lemma_sqrt_t(s_dot(c@, c@) * (SCALE as int));
        assert(mag_rd <= 1_000_000_000 && mag_c <= 3_000_000_000int) by {
            lemma_mag_bounded(rd@, 1_000_000_000);
            lemma_mag_bounded(c@, 3_000_000_000);
        }
        lemma_smul_bound(mag_rd as int, mag_c as int, 1_000_000_000, 3_000_000_000);
        lemma_div_t_bound(num as int * 1000, 1);
    }
    let den = fx_mul(mag_rd, mag_c);
    let f: i64 = if den == 0 {
        1000
    } else {
        proof {
            lemma_div_t_bound(num as int * 1000, den as int);
        }
        fx_clamp(fx_div(num, den), 500, 1000)
    };
    proof {
        lemma_div_t_cancel(dist as int, 30);
        lemma_div_t_bound(dist as int, 30);
        assert(div_t(dist as int, 30) >= 0) by {
            vstd::arithmetic::div_mod::lemma_div_is_ordered(0, dist as int, 30);
        }
    }
    let faded = dist.checked_div(30).unwrap();
    let atten: i64 = 1000 - faded;
    let rx = shade_channel(tri.color.x, f, atten);
    let ry = shade_channel(tri.color.y, f, atten);
    let rz = shade_channel(tri.color.z, f, atten);
    Vec3 { x: rx, y: ry, z: rz }
}

/// One color channel scaled by the angular factor and the fog, floored at
/// black.
fn shade_channel(ch: i64, f: i64, atten: i64) -> (r: i64)
    requires
        0 <= ch <= 1_000_000,
        0 <= f <= 1000,
        atten <= 1000,
    ensures
        r as int == max0(smul(smul(ch as int, f as int), atten as int)),
{
    proof {
        lemma_smul_bound(ch as int, f as int, 1_000_000, 1000);
        lemma_smul_sign(ch as int, f as int);
    }
    let cf = fx_mul(ch, f);
    if atten <= 0 {
        proof {
            lemma_smul_sign(cf as int, atten as int);
        }
        0
    } else {
        proof {
            lemma_smul_bound(cf as int, atten as int, 1_000_000, 1000);
            lemma_smul_sign(cf as int, atten as int);
        }
        fx_mul(cf, atten)
    }
}

/// A magnitude bound read back off the square-root characterisation.
proof fn lemma_mag_bounded(v: V3, k: int)
    requires
        k >= 0,
        s_dot(v, v) * (SCALE as int) < k * k,
        s_mag(v) >= 0,
        s_mag(v) * s_mag(v) <= s_dot(v, v) * (SCALE as int),
    ensures
        s_mag(v) <= k,
{
    if s_mag(v) > k {
        assert(s_mag(v) * s_mag(v) >= k * k) by (nonlinear_arith)
            requires
                s_mag(v) > k >= 0,
        ;
    }
}

/// The color of one screen cell: scan every triangle for the nearest hit
/// and shade it, or leave the cell black.
pub fn render_pixel(camera: &Camera, tris: &Vec<Tri>, w: usize, h: usize, x: usize, y: usize) -> (r:
    Vec3)
    requires
        render_inputs_ok(*camera, tris.deep_view(), w as int, h as int),
        x < w,
        y < h,
    ensures
        r@ == s_pixel_color(*camera, tris.deep_view(), w as int, h as int, x as int, y as int),
{
    let ghost tv = tris.deep_view();
    proof {
        assert(forall|j: int| 0 <= j < tris@.len() ==> (#[trigger] tris@[j])@ == tv[j]);
    }
    let rd = ray_dir(camera, w, h, x, y);
    let ro = camera.pos;
    let mut min_dist: i64 = FAR;
    let mut closest: Option<usize> = None;
    let n = tris.len();
    let mut i: usize = 0;
    while i < n
        invariant
            0 <= i <= n,
            n == tv.len(),
            tv == tris.deep_view(),
            tris@.len() == n,
            forall|j: int| 0 <= j < n ==> (#[trigger] tris@[j])@ == tv[j],
            render_inputs_ok(*camera, tv, w as int, h as int),
            in_range(rd@, RAY_LIMIT as int),
            rd@ == s_ray_dir(*camera, w as int, h as int, x as int, y as int),
            ro == camera.pos,
            ({
                let sc = s_scan(tv.take(i as int), ro@, rd@);
                &&& min_dist as int == sc.0
                &&& match closest {
                    Some(u) => sc.1 == Some(u as int) && u < i && min_dist >= 0,
                    None => sc.1 is None,
                }
            }),
        decreases n - i,
    {
        proof {
            assert(tv.take(i + 1).drop_last() =~= tv.take(i as int));
            assert(tv.take(i + 1).last() == tv[i as int]);
        }
        let (hit, distance) = tris[i].hit_mt(ro, rd);
        if hit && distance < min_dist {
            min_dist = distance;
            closest = Some(i);
        }
        i += 1;
    }
    proof {
        assert(tv.take(n as int) =~= tv);
    }
    match closest {
        Some(idx) => {
            let tri = tris[idx];
            shade_hit(&tri, rd, min_dist)
        },
        None => Vec3 { x: 0, y: 0, z: 0 },
    }
}

/// One full row of the pixel buffer.
pub fn render_row(camera: &Camera, tris: &Vec<Tri>, w: usize, h: usize, y: usize) -> (r: Vec<Vec3>)
    requires
        render_inputs_ok(*camera, tris.deep_view(), w as int, h as int),
        y < h,
    ensures
        r.deep_view() == s_row(*camera, tris.deep_view(), w as int, h as int, y as int),
{
    let mut row: Vec<Vec3> = Vec::new();
    let mut x: usize = 0;
    while x < w
        invariant
            0 <= x <= w,
            render_inputs_ok(*camera, tris.deep_view(), w as int, h as int),
            y < h,
            row@.len() == x,
            forall|j: int|
                0 <= j < x ==> (#[trigger] row@[j])@ == s_pixel_color(
                    *camera,
                    tris.deep_view(),
                    w as int,
                    h as int,
                    j,
                    y as int,
                ),
        decreases w - x,
    {
        let p = render_pixel(camera, tris, w, h, x, y);
        row.push(p);
        x += 1;
    }
    proof {
        assert(row.deep_view() =~= s_row(*camera, tris.deep_view(), w as int, h as int, y as int));
    }
    row
}

/// Relies on rayon's parallel iterators: `into_par_iter` over `0..h`
/// followed by `map` and `collect` produces one element per index, in index
/// order, each the result of the closure on its index — here a verified
/// whole-row render, so every cell of the buffer is the specified pixel
/// color.
#[verifier::external_body]
fn render_rows_parallel(camera: &Camera, tris: &Vec<Tri>, w: usize, h: usize) -> (r: Vec<Vec<Vec3>>)
    requires
        render_inputs_ok(*camera, tris.deep_view(), w as int, h as int),
    ensures
        r.deep_view() == s_buffer(*camera, tris.deep_view(), w as int, h as int),
{
    (0..h).into_par_iter().map(|y| render_row(camera, tris, w, h, y)).collect()
}

/// The camera's forward direction: one unit along z, rotated by the
/// camera's orientation.
pub open spec fn s_forward(cam: Camera) -> V3 {
    s_rotate(V3 { x: 0, y: 0, z: SCALE as int }, cam.rotation)
}

/// A vertex survives pruning when it is near the camera or in front of it.
pub open spec fn s_keep_vertex(v: V3, pos: V3, fwd: V3) -> bool {
    let d = s_sub(v, pos);
    s_dot(d, d) < smul(RENDER_DIST as int, RENDER_DIST as int) || s_dot(d, fwd) >= 0
}

/// A triangle survives pruning when any of its vertices does: only a
/// triangle whose every vertex is both beyond the render distance and
/// behind the camera is discarded, so nothing that could contribute a pixel
/// is lost.
pub open spec fn s_keep_tri(t: T3, pos: V3, fwd: V3) -> bool {
    s_keep_vertex(t.v0, pos, fwd) || s_keep_vertex(t.v1, pos, fwd) || s_keep_vertex(t.v2, pos, fwd)
}

/// The pruned triangle list: the kept triangles, in their original order.
pub open spec fn s_pruned(ts: Seq<T3>, pos: V3, fwd: V3) -> Seq<T3>
    decreases ts.len(),
{
    if ts.len() == 0 {
        Seq::empty()
    } else {
        let rest = s_pruned(ts.drop_last(), pos, fwd);
        if s_keep_tri(ts.last(), pos, fwd) {
            rest.push(ts.last())
        } else {
            rest
        }
    }
}

/// Whether one vertex survives pruning, executable.
fn keep_vertex(v: Vec3, pos: Vec3, fwd: Vec3) -> (r: bool)
    requires
        in_range(v@, GEO_LIMIT as int),
        in_range(pos@, GEO_LIMIT as int),
        in_range(fwd@, 8 * (SCALE as int)),
    ensures
        r == s_keep_vertex(v@, pos@, fwd@),
{
    let d = v.sub(pos);
    proof {
        lemma_pair_fits(d@, d@, 2 * (GEO_LIMIT as int), 2 * (GEO_LIMIT as int));
        lemma_pair_fits(d@, fwd@, 2 * (GEO_LIMIT as int), 8 * (SCALE as int));
    }
    let near = d.dot(d) < fx_mul(RENDER_DIST, RENDER_DIST);
    let front = d.dot(fwd) >= 0;
    near || front
}

impl Screen {
    /// A screen of the given character-cell dimensions.
    pub fn new(w: usize, h: usize) -> (r: Screen)
        requires
            1 <= w <= MAX_W,
            1 <= h <= MAX_H,
        ensures
            r.w == w,
            r.h == h,
    {
        Screen { w, h }
    }

    /// Render the camera's view of the given triangles into a pixel buffer
    /// of `h` rows by `w` columns, ray-casting the rows in parallel.
    pub fn render_mt(&self, camera: &Camera, tris: &Vec<Tri>) -> (r: Vec<Vec<Vec3>>)
        requires
            render_inputs_ok(*camera, tris.deep_view(), self.w as int, self.h as int),
        ensures
            r.deep_view() == s_buffer(*camera, tris.deep_view(), self.w as int, self.h as int),
    {
        render_rows_parallel(camera, tris, self.w, self.h)
    }

    /// Render with distance-and-direction pruning: triangles whose every
    /// vertex is both beyond `RENDER_DIST` and behind the camera are
    /// discarded before the per-pixel scan.
    pub fn render_pruned_mt(&self, camera: &Camera, mesh: &Mesh) -> (r: Vec<Vec<Vec3>>)
        requires
            render_inputs_ok(*camera, mesh@, self.w as int, self.h as int),
        ensures
            r.deep_view() == s_buffer(
                *camera,
                s_pruned(mesh@, camera.pos@, s_forward(*camera)),
                self.w as int,
                self.h as int,
            ),
    {
        proof {
            lemma_rotate_range(V3 { x: 0, y: 0, z: SCALE as int }, camera.rotation, SCALE as int);
        }
        let fwd = Vec3 { x: 0, y: 0, z: SCALE }.rotate(&camera.rotation);
        let tris = mesh.tris();
        let ghost mv = mesh@;
        let mut pruned: Vec<Tri> = Vec::new();
        let n = tris.len();
        let mut i: usize = 0;
        while i < n
            invariant
                0 <= i <= n,
                n == mv.len(),
                mv == mesh@,
                tris@.len() == n,
                forall|j: int| 0 <= j < n ==> (#[trigger] tris@[j])@ == mv[j],
                render_inputs_ok(*camera, mv, self.w as int, self.h as int),
                fwd@ == s_forward(*camera),
                in_range(fwd@, 8 * (SCALE as int)),
                pruned.deep_view() == s_pruned(mv.take(i as int), camera.pos@, fwd@),
                forall|j: int|
                    0 <= j < pruned@.len() ==> tri_fits((#[trigger] pruned@[j])@) && tri_color_ok(
                        pruned@[j]@,
                    ),
            decreases n - i,
        {
            proof {
                assert(mv.take(i + 1).drop_last() =~= mv.take(i as int));
                assert(mv.take(i + 1).last() == mv[i as int]);
            }
            let t = tris[i];
            let keep = keep_vertex(t.v0, camera.pos, fwd) || keep_vertex(t.v1, camera.pos, fwd)
                || keep_vertex(t.v2, camera.pos, fwd);
            if keep {
                pruned.push(t);
            }
            proof {
                assert(pruned.deep_view() =~= s_pruned(mv.take(i + 1), camera.pos@, fwd@));
            }
            i += 1;
        }
        proof {
            assert(mv.take(n as int) =~= mv);
            assert(forall|j: int|
                0 <= j < pruned@.len() ==> (#[trigger] pruned.deep_view()[j]) == pruned@[j]@);
        }
        self.render_mt(camera, &pruned)
    }
}

/// Pruning is conservative: every triangle with any vertex near the camera
/// or in front of it survives, in its original relative order — only
/// geometry entirely beyond the render distance and entirely behind the
/// camera (which cannot contribute a shaded pixel) is dropped.
pub proof fn lemma_pruning_conservative(ts: Seq<T3>, pos: V3, fwd: V3, i: int)
    requires
        0 <= i < ts.len(),
        s_keep_tri(ts[i], pos, fwd),
    ensures
        s_pruned(ts, pos, fwd).contains(ts[i]),
    decreases ts.len(),
{
    let out = s_pruned(ts, pos, fwd);
    if i == ts.len() - 1 {
        assert(ts.last() == ts[i]);
        assert(out.last() == ts[i]);
        assert(out.contains(ts[i]));
    } else {
        lemma_pruning_conservative(ts.drop_last(), pos, fwd, i);
        let rest = s_pruned(ts.drop_last(), pos, fwd);
        let j = choose|j: int| 0 <= j < rest.len() && rest[j] == ts.drop_last()[i];
        assert(ts.drop_last()[i] == ts[i]);
        assert(out[j] == ts[i]);
        assert(out.contains(ts[i]));
    }
}

/// Shading can only darken: for a hit at a nonnegative distance on a
/// triangle with color channels in `[0, 255]`, every channel of the shaded
/// color lies between zero and the triangle's own channel — attenuation
/// never brightens and never leaves a negative channel.
pub proof fn lemma_shading_bound(t: T3, rd: V3, dist: int)
    requires
        tri_color_ok(t),
        dist >= 0,
    ensures
        0 <= s_shade(t, rd, dist).x <= t.color.x,
        0 <= s_shade(t, rd, dist).y <= t.color.y,
        0 <= s_shade(t, rd, dist).z <= t.color.z,
{
    let f = s_shade_factor(t, rd);
    let a = s_attenuation(dist);
    assert(0 <= f <= 1000);
    assert(a <= 1000) by {
        lemma_div_t_bound(dist * 1000, RENDER_DIST as int);
        lemma_smul_sign(dist, 1000);
        assert(sdiv(dist, RENDER_DIST as int) >= 0) by {
            if dist > 0 {
                assert(dist * 1000 > 0) by (nonlinear_arith)
                    requires
                        dist > 0,
                ;
                vstd::arithmetic::div_mod::lemma_div_is_ordered(0, dist * 1000, RENDER_DIST as int);
            } else {
                assert(dist * 1000 == 0);
            }
        }
    }
    lemma_shade_channel_bound(t.color.x, f, a);
    lemma_shade_channel_bound(t.color.y, f, a);
    lemma_shade_channel_bound(t.color.z, f, a);
}

/// One channel under a factor of at most one and an attenuation of at most
/// one stays within `[0, channel]`.
proof fn lemma_shade_channel_bound(ch: int, f: int, a: int)
    requires
        0 <= ch <= 1_000_000,
        0 <= f <= 1000,
        a <= 1000,
    ensures
        0 <= max0(smul(smul(ch, f), a)) <= ch,
{
    crate::vec3::lemma_smul_le_abs(ch, f, ch);
    lemma_smul_sign(ch, f);
    let cf = smul(ch, f);
    if a <= 0 {
        lemma_smul_sign(cf, a);
    } else {
        crate::vec3::lemma_smul_le_abs(cf, a, cf);
        lemma_smul_sign(cf, a);
    }
}

} // verus!
