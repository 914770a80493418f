//! 3D vectors over the fixed-point scalar: arithmetic, dot and cross
//! products, magnitude, normalisation and axis rotations.

use vstd::prelude::*;

use crate::fx::{
    abs, div_t, fx_div, fx_mul, isqrt, sdiv, smul, sqrt_t, lemma_div_t_bound, lemma_smul_bound,
    lemma_smul_square_nonneg, lemma_sqrt_t, SCALE,
};

verus! {

/// The mathematical model of a vector: three unbounded integers, each a
/// count of thousandths of a world unit.
pub ghost struct V3 {
    pub x: int,
    pub y: int,
    pub z: int,
}

/// A 3D vector of fixed-point scalars.
#[derive(Clone, Copy, Debug, PartialEq, Eq, Structural)]
pub struct Vec3 {
    pub x: i64,
    pub y: i64,
    pub z: i64,
}

impl View for Vec3 {
    type V = V3;

    open spec fn view(&self) -> V3 {
        V3 { x: self.x as int, y: self.y as int, z: self.z as int }
    }
}

impl DeepView for Vec3 {
    type V = V3;

    open spec fn deep_view(&self) -> V3 {
        self.view()
    }
}

/// Every component has magnitude at most `b`.
pub open spec fn in_range(v: V3, b: int) -> bool {
    abs(v.x) <= b && abs(v.y) <= b && abs(v.z) <= b
}

/// Componentwise sum.
pub open spec fn s_add(a: V3, b: V3) -> V3 {
    V3 { x: a.x + b.x, y: a.y + b.y, z: a.z + b.z }
}

/// Componentwise difference.
pub open spec fn s_sub(a: V3, b: V3) -> V3 {
    V3 { x: a.x - b.x, y: a.y - b.y, z: a.z - b.z }
}

/// Componentwise fixed-point scaling.
pub open spec fn s_scale(a: V3, s: int) -> V3 {
    V3 { x: smul(a.x, s), y: smul(a.y, s), z: smul(a.z, s) }
}

/// Componentwise fixed-point division by a scalar.
pub open spec fn s_div(a: V3, s: int) -> V3 {
    V3 { x: sdiv(a.x, s), y: sdiv(a.y, s), z: sdiv(a.z, s) }
}

/// Fixed-point dot product.
pub open spec fn s_dot(a: V3, b: V3) -> int {
    smul(a.x, b.x) + smul(a.y, b.y) + smul(a.z, b.z)
}

/// Fixed-point cross product.
pub open spec fn s_cross(a: V3, b: V3) -> V3 {
    V3 {
        x: smul(a.y, b.z) - smul(a.z, b.y),
        y: smul(a.z, b.x) - smul(a.x, b.z),
        z: smul(a.x, b.y) - smul(a.y, b.x),
    }
}

/// Fixed-point magnitude: the square root of the dot square, carried out in
/// raw (scale-squared) units so that the result is again in thousandths.
pub open spec fn s_mag(a: V3) -> int {
    sqrt_t(s_dot(a, a) * (SCALE as int))
}

/// Normalisation: each component divided by the magnitude.
pub open spec fn s_norm(a: V3) -> V3 {
    s_div(a, s_mag(a))
}

/// The side conditions under which the executable dot product cannot
/// overflow: the three component products fit an `i64` together.
pub open spec fn dot_fits(a: V3, b: V3) -> bool {
    abs(a.x * b.x) + abs(a.y * b.y) + abs(a.z * b.z) <= i64::MAX as int
}

/// The side conditions under which the executable cross product cannot
/// overflow.
pub open spec fn cross_fits(a: V3, b: V3) -> bool {
    &&& abs(a.y * b.z) + abs(a.z * b.y) <= i64::MAX as int
    &&& abs(a.z * b.x) + abs(a.x * b.z) <= i64::MAX as int
    &&& abs(a.x * b.y) + abs(a.y * b.x) <= i64::MAX as int
}

/// Componentwise bounds give `dot_fits` and `cross_fits` and bound the
/// results.
pub proof fn lemma_pair_fits(a: V3, b: V3, p: int, q: int)
    requires
        in_range(a, p),
        in_range(b, q),
        0 <= p,
        0 <= q,
        2 * (p * q) <= i64::MAX as int,
    ensures
        cross_fits(a, b),
        in_range(s_cross(a, b), 2 * (p * q / 1000)),
        abs(s_dot(a, b)) <= 3 * (p * q / 1000),
        3 * (p * q) <= i64::MAX as int ==> dot_fits(a, b),
{
    lemma_smul_bound(a.x, b.x, p, q);
    lemma_smul_bound(a.y, b.y, p, q);
    lemma_smul_bound(a.z, b.z, p, q);
    lemma_smul_bound(a.y, b.z, p, q);
    lemma_smul_bound(a.z, b.y, p, q);
    lemma_smul_bound(a.z, b.x, p, q);
    lemma_smul_bound(a.x, b.z, p, q);
    lemma_smul_bound(a.x, b.y, p, q);
    lemma_smul_bound(a.y, b.x, p, q);
}

impl Vec3 {
    /// Componentwise sum.
    pub fn add(self, rhs: Vec3) -> (r: Vec3)
        requires
            i64::MIN <= self@.x + rhs@.x <= i64::MAX,
            i64::MIN <= self@.y + rhs@.y <= i64::MAX,
            i64::MIN <= self@.z + rhs@.z <= i64::MAX,
        ensures
            r@ == s_add(self@, rhs@),
    {
        Vec3 { x: self.x + rhs.x, y: self.y + rhs.y, z: self.z + rhs.z }
    }

    /// Componentwise difference.
    pub fn sub(self, rhs: Vec3) -> (r: Vec3)
        requires
            i64::MIN <= self@.x - rhs@.x <= i64::MAX,
            i64::MIN <= self@.y - rhs@.y <= i64::MAX,
            i64::MIN <= self@.z - rhs@.z <= i64::MAX,
        ensures
            r@ == s_sub(self@, rhs@),
    {
        Vec3 { x: self.x - rhs.x, y: self.y - rhs.y, z: self.z - rhs.z }
    }

    /// Scale by a fixed-point factor.
    pub fn scale(self, s: i64) -> (r: Vec3)
        requires
            -i64::MAX <= self@.x * s <= i64::MAX,
            -i64::MAX <= self@.y * s <= i64::MAX,
            -i64::MAX <= self@.z * s <= i64::MAX,
        ensures
            r@ == s_scale(self@, s as int),
    {
        Vec3 { x: fx_mul(self.x, s), y: fx_mul(self.y, s), z: fx_mul(self.z, s) }
    }

    /// Divide by a fixed-point factor.
    pub fn div(self, s: i64) -> (r: Vec3)
        requires
            s != 0,
            -i64::MAX <= self@.x * SCALE <= i64::MAX,
            -i64::MAX <= self@.y * SCALE <= i64::MAX,
            -i64::MAX <= self@.z * SCALE <= i64::MAX,
        ensures
            r@ == s_div(self@, s as int),
    {
        Vec3 { x: fx_div(self.x, s), y: fx_div(self.y, s), z: fx_div(self.z, s) }
    }

    /// Fixed-point dot product.
    pub fn dot(self, rhs: Vec3) -> (r: i64)
        requires
            dot_fits(self@, rhs@),
        ensures
            r == s_dot(self@, rhs@),
    {
        proof {
            lemma_div_t_bound(self@.x * rhs@.x, 1000);
            lemma_div_t_bound(self@.y * rhs@.y, 1000);
            lemma_div_t_bound(self@.z * rhs@.z, 1000);
        }
        fx_mul(self.x, rhs.x) + fx_mul(self.y, rhs.y) + fx_mul(self.z, rhs.z)
    }

    /// Fixed-point cross product.
    pub fn cross(self, rhs: Vec3) -> (r: Vec3)
        requires
            cross_fits(self@, rhs@),
        ensures
            r@ == s_cross(self@, rhs@),
    {
        proof {
            lemma_div_t_bound(self@.y * rhs@.z, 1000);
            lemma_div_t_bound(self@.z * rhs@.y, 1000);
            lemma_div_t_bound(self@.z * rhs@.x, 1000);
            lemma_div_t_bound(self@.x * rhs@.z, 1000);
            lemma_div_t_bound(self@.x * rhs@.y, 1000);
            lemma_div_t_bound(self@.y * rhs@.x, 1000);
        }
        Vec3 {
            x: fx_mul(self.y, rhs.z) - fx_mul(self.z, rhs.y),
            y: fx_mul(self.z, rhs.x) - fx_mul(self.x, rhs.z),
            z: fx_mul(self.x, rhs.y) - fx_mul(self.y, rhs.x),
        }
    }

    /// Fixed-point magnitude.
    pub fn abs(self) -> (r: i64)
        requires
            dot_fits(self@, self@),
            s_dot(self@, self@) * SCALE <= i64::MAX as int,
        ensures
            r == s_mag(self@),
            r >= 0,
    {
        proof {
            lemma_smul_square_nonneg(self@.x);
            lemma_smul_square_nonneg(self@.y);
            lemma_smul_square_nonneg(self@.z);
        }
        let d: i64 = self.dot(self);
        isqrt(d * SCALE)
    }

    /// Normalise to (approximately) unit magnitude.  The magnitude must be
    /// at least one thousandth: a vector whose dot square truncates to zero
    /// carries too little information to be given a direction.
    pub fn norm(self) -> (r: Vec3)
        requires
            dot_fits(self@, self@),
            s_dot(self@, self@) * SCALE <= i64::MAX as int,
            s_dot(self@, self@) >= 1,
            -i64::MAX <= self@.x * SCALE <= i64::MAX,
            -i64::MAX <= self@.y * SCALE <= i64::MAX,
            -i64::MAX <= self@.z * SCALE <= i64::MAX,
        ensures
            r@ == s_norm(self@),
            s_mag(self@) >= 1,
    {
        proof {
            lemma_sqrt_t(s_dot(self@, self@) * (SCALE as int));
            assert(s_dot(self@, self@) * (SCALE as int) >= 1000) by (nonlinear_arith)
                requires
                    s_dot(self@, self@) >= 1,
            ;
            assert(s_mag(self@) >= 1) by {
                if s_mag(self@) < 1 {
                    assert(s_mag(self@) == 0);
                    assert((0int + 1) * (0int + 1) > s_dot(self@, self@) * (SCALE as int));
                }
            }
        }
        let m: i64 = self.abs();
        self.div(m)
    }
}

/// A rotation about one axis, given by the fixed-point sine and cosine of
/// its angle.  The trigonometry itself is left to callers: the engine only
/// ever needs the two scalars.
#[derive(Clone, Copy, Debug, PartialEq, Eq, Structural)]
pub struct Rot {
    pub sin: i64,
    pub cos: i64,
}

/// A camera orientation: yaw (about y), pitch (about x) and roll (about z).
#[derive(Clone, Copy, Debug, PartialEq, Eq, Structural)]
pub struct Orientation {
    pub yaw: Rot,
    pub pitch: Rot,
    pub roll: Rot,
}

/// Sine and cosine of a real angle never leave `[-1, 1]`.
pub open spec fn rot_valid(r: Rot) -> bool {
    abs(r.sin as int) <= SCALE as int && abs(r.cos as int) <= SCALE as int
}

pub open spec fn ori_valid(o: Orientation) -> bool {
    rot_valid(o.yaw) && rot_valid(o.pitch) && rot_valid(o.roll)
}

/// Rotation about the x axis by an angle of sine `s` and cosine `c`.
pub open spec fn s_rot_x(v: V3, s: int, c: int) -> V3 {
    V3 {
        x: v.x,
        y: smul(v.y, c) - smul(v.z, s),
        z: smul(v.y, s) + smul(v.z, c),
    }
}

/// Rotation about the y axis.
pub open spec fn s_rot_y(v: V3, s: int, c: int) -> V3 {
    V3 {
        x: smul(v.x, c) + smul(v.z, s),
        y: v.y,
        z: smul(v.z, c) - smul(v.x, s),
    }
}

/// Rotation about the z axis.
pub open spec fn s_rot_z(v: V3, s: int, c: int) -> V3 {
    V3 {
        x: smul(v.x, c) - smul(v.y, s),
        y: smul(v.x, s) + smul(v.y, c),
        z: v.z,
    }
}

/// The composed camera rotation: roll about z, then pitch about x, then yaw
/// about y, in that fixed order.
pub open spec fn s_rotate(v: V3, o: Orientation) -> V3 {
    s_rot_y(
        s_rot_x(s_rot_z(v, o.roll.sin as int, o.roll.cos as int), o.pitch.sin as int, o.pitch.cos as int),
        o.yaw.sin as int,
        o.yaw.cos as int,
    )
}

/// A single-axis rotation at most doubles the componentwise bound.
pub proof fn lemma_rot_range(v: V3, s: int, c: int, b: int)
    requires
        in_range(v, b),
        abs(s) <= SCALE as int,
        abs(c) <= SCALE as int,
        b >= 0,
    ensures
        in_range(s_rot_x(v, s, c), 2 * b),
        in_range(s_rot_y(v, s, c), 2 * b),
        in_range(s_rot_z(v, s, c), 2 * b),
{
    lemma_smul_le_abs(v.x, s, b);
    lemma_smul_le_abs(v.x, c, b);
    lemma_smul_le_abs(v.y, s, b);
    lemma_smul_le_abs(v.y, c, b);
    lemma_smul_le_abs(v.z, s, b);
    lemma_smul_le_abs(v.z, c, b);
}

/// Multiplying by a factor of magnitude at most one (`SCALE` thousandths)
/// does not increase a scalar's magnitude bound.
pub proof fn lemma_smul_le_abs(a: int, f: int, b: int)
    requires
        abs(a) <= b,
        abs(f) <= SCALE as int,
    ensures
        abs(smul(a, f)) <= b,
{
    lemma_smul_bound(a, f, abs(a), 1000);
    assert(abs(a) * 1000 / 1000 == abs(a)) by (nonlinear_arith)
        requires
            abs(a) >= 0,
    ;
}

/// The componentwise bound under which the executable rotations cannot
/// overflow: four quadrillion thousandths, far beyond any world coordinate.
pub const ROT_LIMIT: i64 = 4_000_000_000_000;

impl Vec3 {
    /// Rotate about the x axis.
    pub fn rotate_x(self, r: &Rot) -> (out: Vec3)
        requires
            in_range(self@, ROT_LIMIT as int),
            rot_valid(*r),
        ensures
            out@ == s_rot_x(self@, r.sin as int, r.cos as int),
            in_range(out@, 2 * (ROT_LIMIT as int)),
    {
        proof {
            lemma_rot_axis_fits(self@, r.sin as int, r.cos as int);
            lemma_rot_range(self@, r.sin as int, r.cos as int, ROT_LIMIT as int);
        }
        Vec3 {
            x: self.x,
            y: fx_mul(self.y, r.cos) - fx_mul(self.z, r.sin),
            z: fx_mul(self.y, r.sin) + fx_mul(self.z, r.cos),
        }
    }

    /// Rotate about the y axis.
    pub fn rotate_y(self, r: &Rot) -> (out: Vec3)
        requires
            in_range(self@, ROT_LIMIT as int),
            rot_valid(*r),
        ensures
            out@ == s_rot_y(self@, r.sin as int, r.cos as int),
            in_range(out@, 2 * (ROT_LIMIT as int)),
    {
        proof {
            lemma_rot_axis_fits(self@, r.sin as int, r.cos as int);
            lemma_rot_range(self@, r.sin as int, r.cos as int, ROT_LIMIT as int);
        }
        Vec3 {
            x: fx_mul(self.x, r.cos) + fx_mul(self.z, r.sin),
            y: self.y,
            z: fx_mul(self.z, r.cos) - fx_mul(self.x, r.sin),
        }
    }

    /// Rotate about the z axis.
    pub fn rotate_z(self, r: &Rot) -> (out: Vec3)
        requires
            in_range(self@, ROT_LIMIT as int),
            rot_valid(*r),
        ensures
            out@ == s_rot_z(self@, r.sin as int, r.cos as int),
            in_range(out@, 2 * (ROT_LIMIT as int)),
    {
        proof {
            lemma_rot_axis_fits(self@, r.sin as int, r.cos as int);
            lemma_rot_range(self@, r.sin as int, r.cos as int, ROT_LIMIT as int);
        }
        Vec3 {
            x: fx_mul(self.x, r.cos) - fx_mul(self.y, r.sin),
            y: fx_mul(self.x, r.sin) + fx_mul(self.y, r.cos),
            z: self.z,
        }
    }

    /// The composed camera rotation: roll about z, then pitch about x, then
    /// yaw about y.  The order is load-bearing for camera-look semantics.
    pub fn rotate(self, o: &Orientation) -> (out: Vec3)
        requires
            in_range(self@, (ROT_LIMIT as int) / 4),
            ori_valid(*o),
        ensures
            out@ == s_rotate(self@, *o),
            in_range(out@, 2 * (ROT_LIMIT as int)),
    {
        proof {
            lemma_rot_range(self@, o.roll.sin as int, o.roll.cos as int, (ROT_LIMIT as int) / 4);
            lemma_rot_range(
                s_rot_z(self@, o.roll.sin as int, o.roll.cos as int),
                o.pitch.sin as int,
                o.pitch.cos as int,
                (ROT_LIMIT as int) / 2,
            );
        }
        let a = self.rotate_z(&o.roll);
        let b = a.rotate_x(&o.pitch);
        b.rotate_y(&o.yaw)
    }
}

/// A square shrunk by the scale loses less than one scale's worth.
proof fn lemma_floor_thousand(a: int)
    ensures
        smul(a, a) >= 0,
        1000 * smul(a, a) <= a * a,
        a * a - 1000 < 1000 * smul(a, a),
{
    assert(a * a >= 0) by (nonlinear_arith);
    let p = a * a;
    assert(div_t(p, 1000) == p / 1000);
    vstd::arithmetic::div_mod::lemma_fundamental_div_mod(p, 1000);
    vstd::arithmetic::div_mod::lemma_div_is_ordered(0, p, 1000);
    assert(1000 * (p / 1000) == p - p % 1000);
}

/// Truncated division bracketed by its divisor: the quotient magnitude
/// times the divisor reaches the dividend magnitude to within one divisor.
proof fn lemma_div_t_char(a: int, b: int)
    requires
        b >= 1,
    ensures
        abs(div_t(a, b)) * b <= abs(a),
        abs(a) < (abs(div_t(a, b)) + 1) * b,
{
    let p = abs(a);
    let q = p / b;
    vstd::arithmetic::div_mod::lemma_fundamental_div_mod(p, b);
    vstd::arithmetic::div_mod::lemma_div_is_ordered(0, p, b);
    assert(abs(div_t(a, b)) == q);
    assert(q * b == p - p % b) by (nonlinear_arith)
        requires
            p == b * q + p % b,
    ;
    assert((q + 1) * b == q * b + b) by (nonlinear_arith);
}

/// A square equals the square of the magnitude.
proof fn lemma_abs_sq(a: int)
    by (nonlinear_arith)
    ensures
        abs(a) * abs(a) == a * a,
{
}

/// Squaring keeps order on nonnegative integers.
proof fn lemma_sq_le(a: int, b: int)
    by (nonlinear_arith)
    requires
        0 <= a <= b,
    ensures
        a * a <= b * b,
{
}

/// Squaring keeps strict order on nonnegative integers.
proof fn lemma_sq_lt(a: int, b: int)
    by (nonlinear_arith)
    requires
        0 <= a < b,
    ensures
        a * a < b * b,
{
}

/// The squared bracket of one normalised component: its square times the
/// squared magnitude sits within one expansion step of the scaled squared
/// component.
proof fn lemma_comp_sq(xa: int, ni: int, m: int)
    requires
        0 <= ni,
        1 <= m,
        0 <= xa,
        ni * m <= 1000 * xa,
        1000 * xa < (ni + 1) * m,
    ensures
        (ni * ni) * (m * m) <= 1_000_000 * (xa * xa),
        1_000_000 * (xa * xa) < (ni * ni + 2 * ni + 1) * (m * m),
{
    lemma_sq_le(ni * m, 1000 * xa);
    lemma_sq_lt(1000 * xa, (ni + 1) * m);
    assert((ni * m) * (ni * m) == (ni * ni) * (m * m)) by (nonlinear_arith);
    assert((1000 * xa) * (1000 * xa) == 1_000_000 * (xa * xa)) by (nonlinear_arith);
    assert(((ni + 1) * m) * ((ni + 1) * m) == (ni * ni + 2 * ni + 1) * (m * m))
        by (nonlinear_arith);
}

/// The componentwise facts behind normalisation of a vector of at least one
/// world unit: each normalised component magnitude times the magnitude
/// brackets the scaled component, and stays under 1003.
proof fn lemma_norm_component(x: int, m: int, s2: int)
    requires
        m >= 1000,
        x * x <= s2,
        s2 < (m + 3) * (m + 3),
    ensures
        abs(sdiv(x, m)) * m <= 1000 * abs(x),
        1000 * abs(x) < (abs(sdiv(x, m)) + 1) * m,
        abs(sdiv(x, m)) <= 1003,
        abs(x) <= m + 3,
{
    assert(abs(x) <= m + 3) by (nonlinear_arith)
        requires
            x * x <= s2,
            s2 < (m + 3) * (m + 3),
            m >= 1000,
    ;
    lemma_div_t_char(x * 1000, m);
    assert(abs(x * 1000) == 1000 * abs(x)) by (nonlinear_arith);
    let ni = abs(sdiv(x, m));
    assert(ni * m <= 1000 * (m + 3)) by (nonlinear_arith)
        requires
            ni * m <= 1000 * abs(x),
            abs(x) <= m + 3,
    ;
    assert(ni <= 1003) by (nonlinear_arith)
        requires
            ni * m <= 1000 * m + 3000,
            m >= 1000,
            ni >= 0,
    ;
}

/// Normalisation lands within the scale's granularity of unit magnitude:
/// for any vector of at least one world unit, the magnitude of the
/// normalised vector lies within half a percent of one unit, and each
/// normalised component stays within 1003 thousandths.  Shorter vectors
/// lose too much to truncation for any such bound.
pub proof fn lemma_normalize_magnitude(v: V3)
    requires
        s_mag(v) >= 1000,
    ensures
        995 <= s_mag(s_norm(v)) <= 1002,
        in_range(s_norm(v), 1003),
{
    let m = s_mag(v);
    let d = s_dot(v, v);
    let s2 = v.x * v.x + v.y * v.y + v.z * v.z;
    lemma_floor_thousand(v.x);
    lemma_floor_thousand(v.y);
    lemma_floor_thousand(v.z);
    assert(s2 - 3000 < 1000 * d <= s2);
    assert(d >= 0);
    assert(d * 1000 == 1000 * d) by (nonlinear_arith);
    lemma_sqrt_t(d * (SCALE as int));
    assert(m * m <= 1000 * d);
    assert((m + 1) * (m + 1) > 1000 * d);
    assert(m * m <= s2);
    assert((m + 1) * (m + 1) > s2 - 3000);
    assert(s2 < (m + 3) * (m + 3)) by (nonlinear_arith)
        requires
            (m + 1) * (m + 1) > s2 - 3000,
            m >= 1000,
    ;
    assert(v.x * v.x <= s2 && v.y * v.y <= s2 && v.z * v.z <= s2) by (nonlinear_arith)
        requires
            s2 == v.x * v.x + v.y * v.y + v.z * v.z,
    ;
    lemma_norm_component(v.x, m, s2);
    lemma_norm_component(v.y, m, s2);
    lemma_norm_component(v.z, m, s2);
    let n = s_norm(v);
    let nx = abs(n.x);
    let ny = abs(n.y);
    let nz = abs(n.z);
    let xa = abs(v.x);
    let ya = abs(v.y);
    let za = abs(v.z);
    let n2 = n.x * n.x + n.y * n.y + n.z * n.z;
    lemma_abs_sq(n.x);
    lemma_abs_sq(n.y);
    lemma_abs_sq(n.z);
    lemma_abs_sq(v.x);
    lemma_abs_sq(v.y);
    lemma_abs_sq(v.z);
    lemma_comp_sq(xa, nx, m);
    lemma_comp_sq(ya, ny, m);
    lemma_comp_sq(za, nz, m);
    // sums of the three component brackets
    assert(n2 * (m * m) == (nx * nx) * (m * m) + (ny * ny) * (m * m) + (nz * nz) * (m * m))
        by (nonlinear_arith)
        requires
            n2 == nx * nx + ny * ny + nz * nz,
    ;
    let e2 = n2 + 2 * (nx + ny + nz) + 3;
    assert(e2 * (m * m) == (nx * nx + 2 * nx + 1) * (m * m) + (ny * ny + 2 * ny + 1) * (m * m) + (
    nz * nz + 2 * nz + 1) * (m * m)) by (nonlinear_arith)
        requires
            e2 == n2 + 2 * (nx + ny + nz) + 3,
            n2 == nx * nx + ny * ny + nz * nz,
    ;
    assert(n2 * (m * m) <= 1_000_000 * s2);
    assert(1_000_000 * s2 < e2 * (m * m));
    // upper bound on the normalised dot square
    assert(1_000_000 * s2 < 1_000_000 * (m * m) + 2_000_000 * m + 3_001_000_000)
        by (nonlinear_arith)
        requires
            s2 < (m + 1) * (m + 1) + 3000,
    ;
    assert(n2 <= 1_005_001) by (nonlinear_arith)
        requires
            n2 * (m * m) < 1_000_000 * (m * m) + 2_000_000 * m + 3_001_000_000,
            m >= 1000,
    ;
    // lower bound on the normalised dot square
    assert(1_000_000 * (m * m) <= 1_000_000 * s2) by (nonlinear_arith)
        requires
            m * m <= s2,
    ;
    assert(n2 + 6021 > 1_000_000) by (nonlinear_arith)
        requires
            1_000_000 * (m * m) <= 1_000_000 * s2,
            1_000_000 * s2 < (n2 + 2 * (nx + ny + nz) + 3) * (m * m),
            nx <= 1003,
            ny <= 1003,
            nz <= 1003,
            m >= 1000,
            n2 >= 0,
    ;
    // back through the floor and the square root
    let d2 = s_dot(n, n);
    lemma_floor_thousand(n.x);
    lemma_floor_thousand(n.y);
    lemma_floor_thousand(n.z);
    assert(n2 - 3000 < 1000 * d2 <= n2);
    assert(d2 >= 0);
    assert(d2 * 1000 == 1000 * d2) by (nonlinear_arith);
    lemma_sqrt_t(d2 * (SCALE as int));
    let mm = s_mag(n);
    assert(mm * mm <= 1000 * d2);
    assert((mm + 1) * (mm + 1) > 1000 * d2);
    assert(mm <= 1002) by (nonlinear_arith)
        requires
            mm * mm <= 1_005_001,
            mm >= 0,
    ;
    assert(mm >= 995) by (nonlinear_arith)
        requires
            (mm + 1) * (mm + 1) > 990_980,
            mm >= 0,
    ;
}

/// Normalising twice is the same as normalising once, to within six
/// thousandths per component, for any vector of at least one world unit.
pub proof fn lemma_normalize_idempotent(v: V3)
    requires
        s_mag(v) >= 1000,
    ensures
        in_range(s_sub(s_norm(s_norm(v)), s_norm(v)), 6),
{
    lemma_normalize_magnitude(v);
    let n = s_norm(v);
    let m2 = s_mag(n);
    lemma_norm_twice_component(n.x, m2);
    lemma_norm_twice_component(n.y, m2);
    lemma_norm_twice_component(n.z, m2);
}

/// One component of the second normalisation moves by at most six.
proof fn lemma_norm_twice_component(ni: int, m2: int)
    requires
        995 <= m2 <= 1002,
        abs(ni) <= 1003,
    ensures
        abs(sdiv(ni, m2) - ni) <= 6,
{
    lemma_div_t_char(ni * 1000, m2);
    lemma_sdiv_sign(ni, m2);
    let nn = sdiv(ni, m2);
    assert(abs(ni * 1000) == 1000 * abs(ni)) by (nonlinear_arith);
    // the truncated quotient times the divisor sits within one divisor of
    // the scaled component, on the same side of zero
    assert(abs(nn * m2 - ni * 1000) < m2) by (nonlinear_arith)
        requires
            abs(nn) * m2 <= 1000 * abs(ni),
            1000 * abs(ni) < (abs(nn) + 1) * m2,
            m2 >= 1,
            (ni >= 0 ==> nn >= 0) && (ni <= 0 ==> nn <= 0),
    ;
    assert(abs(ni * 1000 - ni * m2) <= 1003 * 5) by (nonlinear_arith)
        requires
            abs(ni) <= 1003,
            995 <= m2 <= 1002,
    ;
    assert(abs(nn - ni) * m2 <= abs(nn * m2 - ni * 1000) + abs(ni * 1000 - ni * m2))
        by (nonlinear_arith)
        requires
            m2 >= 1,
    ;
    assert(abs(nn - ni) <= 6) by (nonlinear_arith)
        requires
            abs(nn - ni) * m2 < m2 + 5015,
            m2 >= 995,
    ;
}

/// The sign of a truncated quotient follows its numerator for a positive
/// divisor.
proof fn lemma_sdiv_sign(a: int, b: int)
    requires
        b >= 1,
    ensures
        a >= 0 ==> sdiv(a, b) >= 0,
        a <= 0 ==> sdiv(a, b) <= 0,
{
    assert(a >= 0 ==> a * 1000 >= 0) by (nonlinear_arith);
    assert(a <= 0 ==> a * 1000 <= 0) by (nonlinear_arith);
    let p = a * 1000;
    if p > 0 {
        vstd::arithmetic::div_mod::lemma_div_is_ordered(0, p, b);
    }
    if p < 0 {
        vstd::arithmetic::div_mod::lemma_div_is_ordered(0, p * -1, b);
    }
}

/// The composed rotation at most multiplies the componentwise bound by
/// eight: a factor of two per axis.
pub proof fn lemma_rotate_range(v: V3, o: Orientation, b: int)
    requires
        in_range(v, b),
        ori_valid(o),
        b >= 0,
    ensures
        in_range(s_rotate(v, o), 8 * b),
{
    lemma_rot_range(v, o.roll.sin as int, o.roll.cos as int, b);
    let v1 = s_rot_z(v, o.roll.sin as int, o.roll.cos as int);
    lemma_rot_range(v1, o.pitch.sin as int, o.pitch.cos as int, 2 * b);
    let v2 = s_rot_x(v1, o.pitch.sin as int, o.pitch.cos as int);
    lemma_rot_range(v2, o.yaw.sin as int, o.yaw.cos as int, 4 * b);
}

/// Products inside a single-axis rotation stay within an `i64` as long as
/// the vector is within `ROT_LIMIT` and the sine/cosine within one.
proof fn lemma_rot_axis_fits(v: V3, s: int, c: int)
    requires
        in_range(v, ROT_LIMIT as int),
        abs(s) <= SCALE as int,
        abs(c) <= SCALE as int,
    ensures
        -i64::MAX <= v.x * s <= i64::MAX,
        -i64::MAX <= v.x * c <= i64::MAX,
        -i64::MAX <= v.y * s <= i64::MAX,
        -i64::MAX <= v.y * c <= i64::MAX,
        -i64::MAX <= v.z * s <= i64::MAX,
        -i64::MAX <= v.z * c <= i64::MAX,
        abs(smul(v.x, s)) <= ROT_LIMIT as int,
        abs(smul(v.x, c)) <= ROT_LIMIT as int,
        abs(smul(v.y, s)) <= ROT_LIMIT as int,
        abs(smul(v.y, c)) <= ROT_LIMIT as int,
        abs(smul(v.z, s)) <= ROT_LIMIT as int,
        abs(smul(v.z, c)) <= ROT_LIMIT as int,
{
    lemma_smul_bound(v.x, s, ROT_LIMIT as int, 1000);
    lemma_smul_bound(v.x, c, ROT_LIMIT as int, 1000);
    lemma_smul_bound(v.y, s, ROT_LIMIT as int, 1000);
    lemma_smul_bound(v.y, c, ROT_LIMIT as int, 1000);
    lemma_smul_bound(v.z, s, ROT_LIMIT as int, 1000);
    lemma_smul_bound(v.z, c, ROT_LIMIT as int, 1000);
    lemma_smul_le_abs(v.x, s, abs(v.x));
    lemma_smul_le_abs(v.x, c, abs(v.x));
    lemma_smul_le_abs(v.y, s, abs(v.y));
    lemma_smul_le_abs(v.y, c, abs(v.y));
    lemma_smul_le_abs(v.z, s, abs(v.z));
    lemma_smul_le_abs(v.z, c, abs(v.z));
}

} // verus!
