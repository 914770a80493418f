//! Colored triangles: the unit normal and the Möller–Trumbore ray
//! intersection test, the primitive that the renderer runs per pixel.

use vstd::prelude::*;

use crate::fx::{abs, fx_div, sdiv, SCALE};
use crate::fx::lemma_sqrt_t;
use crate::fx::{lemma_div_t_bound, lemma_smul_square_nonneg};
use crate::vec3::{
    dot_fits, in_range, lemma_pair_fits, s_add, s_cross, s_dot, s_mag, s_norm, s_scale, s_sub,
    Vec3, V3,
};

verus! {

/// Bound on the coordinates a triangle or ray may hold: two million
/// thousandths, i.e. two thousand world units.
pub const GEO_LIMIT: i64 = 2_000_000;

/// Bound on a triangle's edge vectors: nine hundred world units.  Together
/// with `GEO_LIMIT` it keeps every intermediate product of the intersection
/// test and of the normal computation inside an `i64`.
pub const EDGE_LIMIT: i64 = 900_000;

/// Bound on the ray directions the intersection test accepts: wider than
/// `GEO_LIMIT`, because a rotated pixel ray can outgrow its inputs.
pub const RAY_LIMIT: i64 = 8_000_000;

/// Near-singular determinant threshold: rays closer than a thousandth to
/// parallel report no hit.
pub const DET_EPS: i64 = 1;

/// The distance reported for a miss, standing in for infinity.
pub const FAR: i64 = i64::MAX;

/// The mathematical model of a triangle: three corners and an RGB color
/// held as a vector.
pub ghost struct T3 {
    pub v0: V3,
    pub v1: V3,
    pub v2: V3,
    pub color: V3,
}

/// A triangle of three fixed-point corners plus a color-as-vector.
#[derive(Clone, Copy, Debug, PartialEq, Eq, Structural)]
pub struct Tri {
    pub v0: Vec3,
    pub v1: Vec3,
    pub v2: Vec3,
    pub color: Vec3,
}

impl View for Tri {
    type V = T3;

    open spec fn view(&self) -> T3 {
        T3 { v0: self.v0@, v1: self.v1@, v2: self.v2@, color: self.color@ }
    }
}

impl DeepView for Tri {
    type V = T3;

    open spec fn deep_view(&self) -> T3 {
        self.view()
    }
}

/// First edge vector of a triangle.
pub open spec fn s_e1(t: T3) -> V3 {
    s_sub(t.v1, t.v0)
}

/// Second edge vector of a triangle.
pub open spec fn s_e2(t: T3) -> V3 {
    s_sub(t.v2, t.v0)
}

/// A triangle the engine can work on: corners within `GEO_LIMIT` and edges
/// within `EDGE_LIMIT`.
pub open spec fn tri_fits(t: T3) -> bool {
    &&& in_range(t.v0, GEO_LIMIT as int)
    &&& in_range(t.v1, GEO_LIMIT as int)
    &&& in_range(t.v2, GEO_LIMIT as int)
    &&& in_range(s_e1(t), EDGE_LIMIT as int)
    &&& in_range(s_e2(t), EDGE_LIMIT as int)
}

/// The (scaled) normal direction of a triangle, before normalisation.
pub open spec fn s_tri_cross(t: T3) -> V3 {
    s_cross(s_e1(t), s_e2(t))
}

/// A degenerate triangle: its edge cross product carries less than one
/// thousandth of magnitude, so no direction can be read off it.
pub open spec fn tri_degenerate(t: T3) -> bool {
    s_dot(s_tri_cross(t), s_tri_cross(t)) < 1
}

/// The unit normal of a non-degenerate triangle.
pub open spec fn s_tri_normal(t: T3) -> V3 {
    s_norm(s_tri_cross(t))
}

/// The real ratio `n / d` is negative.
pub open spec fn ratio_neg(n: int, d: int) -> bool {
    (d > 0 && n < 0) || (d < 0 && n > 0)
}

/// The real ratio `n / d` exceeds one.
pub open spec fn ratio_gt_one(n: int, d: int) -> bool {
    (d > 0 && n > d) || (d < 0 && n < d)
}

/// The Möller–Trumbore intersection test on the fixed-point model: whether
/// the ray from `ro` along `rd` meets the triangle, and at which distance
/// (in units of `rd`'s length).  Barycentric rejections compare numerators
/// against the determinant exactly, so no intermediate quotient is taken.
pub open spec fn s_hit_mt(t: T3, ro: V3, rd: V3) -> (bool, int) {
    let e1 = s_e1(t);
    let e2 = s_e2(t);
    let p = s_cross(rd, e2);
    let det = s_dot(p, e1);
    if abs(det) < DET_EPS as int {
        (false, 0int)
    } else {
        let tv = s_sub(ro, t.v0);
        let u = s_dot(tv, p);
        if ratio_neg(u, det) || ratio_gt_one(u, det) {
            (false, FAR as int)
        } else {
            let q = s_cross(tv, e1);
            let v = s_dot(rd, q);
            if ratio_neg(v, det) || ratio_gt_one(u + v, det) {
                (false, FAR as int)
            } else {
                let d = s_dot(e2, q);
                if ratio_neg(d, det) {
                    (false, FAR as int)
                } else {
                    (true, sdiv(d, det))
                }
            }
        }
    }
}

/// The plane-intersection hit test on the fixed-point model: the ray is
/// normalised, cut against the triangle's plane, and the cut point accepted
/// when it lies on the normal's side of all three edges.  Distances are in
/// world units (along the normalised ray), and a ray or triangle whose dot
/// square truncates below one is a miss.
pub open spec fn s_hit_geo(t: T3, ro: V3, rd: V3) -> (bool, int) {
    if s_dot(rd, rd) < 1000 {
        (false, FAR as int)
    } else {
        let c = s_tri_cross(t);
        if s_dot(c, c) < 1000 {
            (false, FAR as int)
        } else {
            let n = s_norm(c);
            let rdn = s_norm(rd);
            let dplane = -s_dot(n, t.v0);
            let denom = s_dot(n, rdn);
            if denom == 0 {
                (false, FAR as int)
            } else {
                let dist = sdiv(-(s_dot(n, ro) + dplane), denom);
                if dist < 0 {
                    (false, FAR as int)
                } else {
                    let p = s_add(ro, s_scale(rdn, dist));
                    let t0 = s_dot(n, s_cross(s_e1(t), s_sub(p, t.v0)));
                    let t1 = s_dot(n, s_cross(s_sub(t.v2, t.v1), s_sub(p, t.v1)));
                    let t2 = s_dot(n, s_cross(s_sub(t.v0, t.v2), s_sub(p, t.v2)));
                    if t0 > 0 && t1 > 0 && t2 > 0 {
                        (true, dist)
                    } else {
                        (false, FAR as int)
                    }
                }
            }
        }
    }
}

/// A dot square of at least one gives a magnitude of at least one unit.
proof fn lemma_mag_at_least_unit(v: V3)
    requires
        s_dot(v, v) >= 1000,
    ensures
        s_mag(v) >= 1000,
{
    assert(s_dot(v, v) * (SCALE as int) >= 1_000_000) by (nonlinear_arith)
        requires
            s_dot(v, v) >= 1000,
    ;
    lemma_sqrt_t(s_dot(v, v) * (SCALE as int));
    let m = s_mag(v);
    if m < 1000 {
        assert((m + 1) * (m + 1) <= 1_000_000) by (nonlinear_arith)
            requires
                0 <= m < 1000,
        ;
    }
}

impl Tri {
    /// The Möller–Trumbore ray-triangle intersection test.  Returns whether
    /// the ray hits and the hit's distance along the (unnormalised) ray
    /// direction; a degenerate or parallel configuration is a miss, never a
    /// panic.
    pub fn hit_mt(&self, ro: Vec3, rd: Vec3) -> (r: (bool, i64))
        requires
            tri_fits(self@),
            in_range(ro@, GEO_LIMIT as int),
            in_range(rd@, RAY_LIMIT as int),
        ensures
            (r.0, r.1 as int) == s_hit_mt(self@, ro@, rd@),
            r.0 ==> r.1 >= 0,
    {
        let ghost gl = GEO_LIMIT as int;
        let ghost rl = RAY_LIMIT as int;
        let ghost el = EDGE_LIMIT as int;
        let e1 = self.v1.sub(self.v0);
        let e2 = self.v2.sub(self.v0);
        proof {
            lemma_pair_fits(rd@, e2@, rl, el);
        }
        let p = rd.cross(e2);
        let ghost pb = 2 * (rl * el / 1000);
        proof {
            lemma_pair_fits(p@, e1@, pb, el);
        }
        let det = p.dot(e1);
        let ghost db = 3 * (pb * el / 1000);
        if det > -DET_EPS && det < DET_EPS {
            return (false, 0);
        }
        let tv = ro.sub(self.v0);
        proof {
            lemma_pair_fits(tv@, p@, 2 * gl, pb);
        }
        let u = tv.dot(p);
        if (det > 0 && (u < 0 || u > det)) || (det < 0 && (u > 0 || u < det)) {
            return (false, FAR);
        }
        proof {
            lemma_pair_fits(tv@, e1@, 2 * gl, el);
        }
        let q = tv.cross(e1);
        let ghost qb = 2 * (2 * gl * el / 1000);
        proof {
            lemma_pair_fits(rd@, q@, rl, qb);
        }
        let v = rd.dot(q);
        let uv = u + v;
        if (det > 0 && (v < 0 || uv > det)) || (det < 0 && (v > 0 || uv < det)) {
            return (false, FAR);
        }
        proof {
            lemma_pair_fits(e2@, q@, el, qb);
        }
        let d = e2.dot(q);
        if (det > 0 && d < 0) || (det < 0 && d > 0) {
            return (false, FAR);
        }
        proof {
            lemma_sdiv_sign_nonneg(d as int, det as int);
        }
        let dist = fx_div(d, det);
        (true, dist)
    }

    /// The plane-intersection hit test, kept beside the Möller–Trumbore
    /// one for reference: normalise the ray, intersect it with the
    /// triangle's plane, and accept the point when it lies left of all
    /// three edges.  A ray or triangle too degenerate to normalise is a
    /// miss, never a panic.
    pub fn hit_geo(&self, ro: Vec3, rd: Vec3) -> (r: (bool, i64))
        requires
            tri_fits(self@),
            in_range(ro@, GEO_LIMIT as int),
            in_range(rd@, RAY_LIMIT as int),
        ensures
            (r.0, r.1 as int) == s_hit_geo(self@, ro@, rd@),
            r.0 ==> r.1 >= 0,
    {
        let ghost gl = GEO_LIMIT as int;
        let ghost rl = RAY_LIMIT as int;
        let ghost el = EDGE_LIMIT as int;
        proof {
            lemma_pair_fits(rd@, rd@, rl, rl);
            lemma_smul_square_nonneg(rd@.x);
            lemma_smul_square_nonneg(rd@.y);
            lemma_smul_square_nonneg(rd@.z);
        }
        let rdd = rd.dot(rd);
        if rdd < 1000 {
            return (false, FAR);
        }
        let e1 = self.v1.sub(self.v0);
        let e2 = self.v2.sub(self.v0);
        proof {
            lemma_pair_fits(e1@, e2@, el, el);
        }
        let c = e1.cross(e2);
        proof {
            lemma_cross_sq_fits(c@);
            lemma_smul_square_nonneg(c@.x);
            lemma_smul_square_nonneg(c@.y);
            lemma_smul_square_nonneg(c@.z);
        }
        let cdot = c.dot(c);
        if cdot < 1000 {
            return (false, FAR);
        }
        proof {
            lemma_mag_at_least_unit(c@);
            lemma_mag_at_least_unit(rd@);
            crate::vec3::lemma_normalize_magnitude(c@);
            crate::vec3::lemma_normalize_magnitude(rd@);
            assert(-i64::MAX <= rd@.x * SCALE <= i64::MAX);
        }
        let n = c.norm();
        let rdn = rd.norm();
        proof {
            lemma_pair_fits(n@, self.v0@, 1003, gl);
            lemma_pair_fits(n@, rdn@, 1003, 1003);
            lemma_pair_fits(n@, ro@, 1003, gl);
        }
        let dplane = -(n.dot(self.v0));
        let denom = n.dot(rdn);
        if denom == 0 {
            return (false, FAR);
        }
        let num = -(n.dot(ro) + dplane);
        proof {
            lemma_div_t_bound(num as int * 1000, denom as int);
            assert(abs(num as int * 1000) <= 13_000_000_000) by (nonlinear_arith)
                requires
                    abs(num as int) <= 13_000_000,
            ;
        }
        let dist = fx_div(num, denom);
        if dist < 0 {
            return (false, FAR);
        }
        proof {
            crate::fx::lemma_smul_bound(rdn@.x, dist as int, 1003, 13_000_000_000);
            crate::fx::lemma_smul_bound(rdn@.y, dist as int, 1003, 13_000_000_000);
            crate::fx::lemma_smul_bound(rdn@.z, dist as int, 1003, 13_000_000_000);
        }
        let p = ro.add(rdn.scale(dist));
        let eb = self.v2.sub(self.v1);
        let ec = self.v0.sub(self.v2);
        let ca = p.sub(self.v0);
        let cb = p.sub(self.v1);
        let cc = p.sub(self.v2);
        let ghost edge_b = 2 * el;
        let ghost corner_b = 14_000_000_000int;
        let ghost cross_b = 2 * (edge_b * corner_b / 1000);
        proof {
            lemma_pair_fits(e1@, ca@, edge_b, corner_b);
            lemma_pair_fits(eb@, cb@, edge_b, corner_b);
            lemma_pair_fits(ec@, cc@, edge_b, corner_b);
            lemma_pair_fits(n@, s_cross(e1@, ca@), 1003, cross_b);
            lemma_pair_fits(n@, s_cross(eb@, cb@), 1003, cross_b);
            lemma_pair_fits(n@, s_cross(ec@, cc@), 1003, cross_b);
        }
        let t0 = n.dot(e1.cross(ca));
        let t1 = n.dot(eb.cross(cb));
        let t2 = n.dot(ec.cross(cc));
        if t0 > 0 && t1 > 0 && t2 > 0 {
            (true, dist)
        } else {
            (false, FAR)
        }
    }

    /// The unit normal: the normalised cross product of the two edge
    /// vectors.  A degenerate triangle has no direction to offer, so the
    /// caller must rule it out.
    pub fn normal(&self) -> (r: Vec3)
        requires
            tri_fits(self@),
            !tri_degenerate(self@),
        ensures
            r@ == s_tri_normal(self@),
    {
        let ghost el = EDGE_LIMIT as int;
        let e1 = self.v1.sub(self.v0);
        let e2 = self.v2.sub(self.v0);
        proof {
            lemma_pair_fits(e1@, e2@, el, el);
        }
        let c = e1.cross(e2);
        proof {
            lemma_cross_sq_fits(c@);
        }
        c.norm()
    }
}

/// Hit determinism: the intersection test is a pure function of the
/// triangle and ray — any two results computed from the same inputs are the
/// identical (hit, distance) pair.
pub proof fn lemma_hit_deterministic(t: T3, ro: V3, rd: V3, r1: (bool, int), r2: (bool, int))
    requires
        r1 == s_hit_mt(t, ro, rd),
        r2 == s_hit_mt(t, ro, rd),
    ensures
        r1 == r2,
{
}

/// The dot square of a vector within the cross-product bound fits the
/// executable magnitude computation.
pub proof fn lemma_cross_sq_fits(c: V3)
    requires
        in_range(c, 2 * ((EDGE_LIMIT as int) * (EDGE_LIMIT as int) / 1000)),
    ensures
        dot_fits(c, c),
        abs(s_dot(c, c)) <= 7_900_000_000_000_000,
        s_dot(c, c) * (SCALE as int) <= i64::MAX as int,
        -i64::MAX <= c.x * SCALE <= i64::MAX,
        -i64::MAX <= c.y * SCALE <= i64::MAX,
        -i64::MAX <= c.z * SCALE <= i64::MAX,
{
    let cb = 2 * ((EDGE_LIMIT as int) * (EDGE_LIMIT as int) / 1000);
    assert(cb == 1_620_000_000int);
    lemma_pair_fits(c, c, cb, cb);
    lemma_smul_square_nonneg(c.x);
    lemma_smul_square_nonneg(c.y);
    lemma_smul_square_nonneg(c.z);
    assert(3 * (cb * cb / 1000) * 1000 <= i64::MAX as int);
}

/// A quotient of a numerator and denominator that do not differ in sign is
/// not negative.
proof fn lemma_sdiv_sign_nonneg(n: int, d: int)
    requires
        d != 0,
        !ratio_neg(n, d),
    ensures
        sdiv(n, d) >= 0,
{
    lemma_div_t_bound(n * 1000, d);
    if n == 0 {
    } else if n > 0 && d > 0 {
        assert(n * 1000 > 0) by (nonlinear_arith)
            requires
                n > 0,
        ;
        lemma_div_t_nonneg(n * 1000, d);
    } else {
        assert(n < 0 && d < 0);
        assert(n * 1000 < 0) by (nonlinear_arith)
            requires
                n < 0,
        ;
        lemma_div_t_nonneg((n * 1000) * -1, d * -1);
        assert(sdiv(n, d) == ((n * 1000) * -1) / (d * -1));
    }
}

/// Euclidean division of nonnegative by positive is nonnegative.
proof fn lemma_div_t_nonneg(a: int, b: int)
    requires
        a >= 0,
        b > 0,
    ensures
        a / b >= 0,
        crate::fx::div_t(a, b) == a / b,
{
    assert(a / b >= 0) by (nonlinear_arith)
        requires
            a >= 0,
            b > 0,
    ;
}

} // verus!
