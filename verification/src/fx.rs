//! The fixed-point scalar: an `i64` counting thousandths of a world unit,
//! with truncating (round-toward-zero) multiplication, division and an
//! integer square root.

use vstd::prelude::*;

verus! {

/// Fixed-point fractions per world unit: every scalar is a count of
/// thousandths.
pub const SCALE: i64 = 1000;

/// Truncated (round-toward-zero) division on mathematical integers, the
/// rounding that Rust's integer division performs.
pub open spec fn div_t(a: int, b: int) -> int {
    if a == 0 {
        0
    } else if a > 0 && b > 0 {
        a / b
    } else if a < 0 && b < 0 {
        (a * -1) / (b * -1)
    } else if a < 0 {
        ((a * -1) / b) * -1
    } else {
        (a / (b * -1)) * -1
    }
}

/// Product of two fixed-point scalars.
pub open spec fn smul(a: int, b: int) -> int {
    div_t(a * b, SCALE as int)
}

/// Quotient of two fixed-point scalars.
pub open spec fn sdiv(a: int, b: int) -> int {
    div_t(a * SCALE, b)
}

/// The magnitude of a truncated quotient never exceeds the magnitude of the
/// numerator, and for a divisor of magnitude `>= 1` it is at most
/// `|a| / |b|`.
pub proof fn lemma_div_t_bound(a: int, b: int)
    requires
        b != 0,
    ensures
        abs(div_t(a, b)) <= abs(a) / abs(b),
        abs(div_t(a, b)) <= abs(a),
        a == 0 ==> div_t(a, b) == 0,
{
    let p = abs(a);
    let q = abs(b);
    assert(q >= 1);
    assert(p >= 0);
    assert(p / q <= p) by (nonlinear_arith)
        requires
            p >= 0,
            q >= 1,
    ;
    assert(p / q >= 0) by (nonlinear_arith)
        requires
            p >= 0,
            q >= 1,
    ;
    assert(abs(div_t(a, b)) == p / q);
}

/// `smul` against componentwise magnitude bounds.
pub proof fn lemma_smul_bound(a: int, b: int, p: int, q: int)
    requires
        abs(a) <= p,
        abs(b) <= q,
    ensures
        abs(smul(a, b)) <= p * q / 1000,
        abs(smul(a, b)) <= p * q,
        abs(a * b) <= p * q,
{
    assert(abs(a * b) <= p * q) by (nonlinear_arith)
        requires
            abs(a) <= p,
            abs(b) <= q,
    ;
    lemma_div_t_bound(a * b, 1000);
    assert(abs(a * b) / 1000 <= p * q / 1000) by {
        vstd::arithmetic::div_mod::lemma_div_is_ordered(abs(a * b), p * q, 1000);
    }
    assert(p * q / 1000 <= p * q) by (nonlinear_arith)
        requires
            p * q >= 0,
    ;
}

/// A scalar times itself is never negative.
pub proof fn lemma_smul_square_nonneg(a: int)
    ensures
        smul(a, a) >= 0,
{
    assert(a * a >= 0) by (nonlinear_arith);
    if a * a > 0 {
        assert(div_t(a * a, 1000) == (a * a) / 1000);
        vstd::arithmetic::div_mod::lemma_div_is_ordered(0, a * a, 1000);
    }
}

/// Fixed-point product: `a * b` rescaled back to thousandths, truncating
/// toward zero.
pub fn fx_mul(a: i64, b: i64) -> (r: i64)
    requires
        -i64::MAX <= a * b <= i64::MAX,
    ensures
        r == smul(a as int, b as int),
{
    proof {
        lemma_div_t_bound(a * b, 1000);
    }
    let p: i64 = a * b;
    let q = p.checked_div(SCALE);
    q.unwrap()
}

/// Fixed-point quotient: `a / b` in thousandths, truncating toward zero.
pub fn fx_div(a: i64, b: i64) -> (r: i64)
    requires
        b != 0,
        -i64::MAX <= a * SCALE <= i64::MAX,
    ensures
        r == sdiv(a as int, b as int),
{
    proof {
        lemma_div_t_bound(a * SCALE, b as int);
        lemma_div_t_bound(a * SCALE, 1);
    }
    let p: i64 = a * SCALE;
    let q = p.checked_div(b);
    q.unwrap()
}

/// Sign of a scalar: `1`, `-1` or `0`.
pub fn fx_sign(a: i64) -> (r: i64)
    ensures
        r == sign(a as int),
{
    if a > 0 {
        1
    } else if a < 0 {
        -1
    } else {
        0
    }
}

/// Sign of a mathematical integer.
pub open spec fn sign(a: int) -> int {
    if a > 0 {
        1
    } else if a < 0 {
        -1
    } else {
        0
    }
}

/// Magnitude of a mathematical integer.
pub open spec fn abs(a: int) -> int {
    if a >= 0 {
        a
    } else {
        -a
    }
}

/// The integer square root: the largest `r` with `r * r <= n`, and `0` for
/// negative `n`.
pub open spec fn sqrt_t(n: int) -> int
    decreases n,
{
    if n <= 0 {
        0
    } else {
        let r = sqrt_t(n - 1);
        if (r + 1) * (r + 1) <= n {
            r + 1
        } else {
            r
        }
    }
}

/// `sqrt_t` is characterised by `r * r <= n < (r + 1) * (r + 1)`.
pub proof fn lemma_sqrt_t(n: int)
    requires
        n >= 0,
    ensures
        sqrt_t(n) >= 0,
        sqrt_t(n) * sqrt_t(n) <= n,
        (sqrt_t(n) + 1) * (sqrt_t(n) + 1) > n,
        sqrt_t(n) <= n,
    decreases n,
{
    if n == 0 {
        assert(sqrt_t(0) == 0);
    } else {
        lemma_sqrt_t(n - 1);
        let r = sqrt_t(n - 1);
        assert(r * r <= n - 1);
        assert((r + 1) * (r + 1) > n - 1);
        if (r + 1) * (r + 1) <= n {
            assert(sqrt_t(n) == r + 1);
            assert((r + 1) * (r + 1) == n);
            assert((r + 2) * (r + 2) > n) by (nonlinear_arith)
                requires
                    r >= 0,
                    (r + 1) * (r + 1) == n,
            ;
            assert(r + 1 <= n) by (nonlinear_arith)
                requires
                    r >= 0,
                    (r + 1) * (r + 1) == n,
            ;
        } else {
            assert(sqrt_t(n) == r);
        }
    }
}

/// Executable integer square root by binary search.
pub fn isqrt(n: i64) -> (r: i64)
    requires
        n >= 0,
    ensures
        r == sqrt_t(n as int),
        r >= 0,
        r * r <= n,
{
    proof {
        lemma_sqrt_t(n as int);
    }
    let mut lo: i64 = 0;
    let mut hi: i64 = 3_037_000_500;
    proof {
        assert(3_037_000_500int * 3_037_000_500int > i64::MAX as int);
    }
    while lo + 1 < hi
        invariant
            0 <= lo < hi <= 3_037_000_500,
            lo * lo <= n,
            hi * hi > n,
            0 <= n <= i64::MAX,
        decreases hi - lo,
    {
        let gap: i64 = hi - lo;
        let half: i64 = (gap as u64 / 2) as i64;
        let mid: i64 = lo + half;
        proof {
            assert(lo < mid < hi);
            assert(mid * mid <= 3_037_000_499int * 3_037_000_499int) by (nonlinear_arith)
                requires
                    0 <= mid <= 3_037_000_499int,
            ;
            assert(3_037_000_499int * 3_037_000_499int < i64::MAX as int);
        }
        let sq: i64 = mid * mid;
        if sq <= n {
            lo = mid;
        } else {
            hi = mid;
        }
    }
    proof {
        let s = sqrt_t(n as int);
        assert(lo + 1 == hi);
        assert(lo * lo <= n < (lo + 1) * (lo + 1));
        if s < lo {
            assert((s + 1) * (s + 1) <= lo * lo) by (nonlinear_arith)
                requires
                    0 <= s,
                    s + 1 <= lo,
            ;
        }
        if s > lo {
            assert((lo + 1) * (lo + 1) <= s * s) by (nonlinear_arith)
                requires
                    0 <= lo,
                    lo + 1 <= s,
            ;
        }
        assert(s == lo);
    }
    lo
}

/// A common positive factor cancels out of a truncated quotient.
pub proof fn lemma_div_t_cancel(a: int, b: int)
    requires
        b > 0,
    ensures
        div_t(a * 1000, b * 1000) == div_t(a, b),
{
    if a == 0 {
        assert(a * 1000 == 0);
    } else if a > 0 {
        assert(a * 1000 > 0) by (nonlinear_arith)
            requires
                a > 0,
        ;
        assert(b * 1000 > 0);
        lemma_div_by_thousand_then(a, b);
    } else {
        assert(a * 1000 < 0) by (nonlinear_arith)
            requires
                a < 0,
        ;
        assert((a * 1000) * -1 == (a * -1) * 1000) by (nonlinear_arith);
        lemma_div_by_thousand_then(a * -1, b);
    }
}

/// For nonnegative `a`, dividing `a * 1000` by `b * 1000` equals dividing
/// `a` by `b`.
proof fn lemma_div_by_thousand_then(a: int, b: int)
    requires
        a >= 0,
        b > 0,
    ensures
        (a * 1000) / (b * 1000) == a / b,
{
    assert(a * 1000 >= 0) by (nonlinear_arith)
        requires
            a >= 0,
    ;
    assert(b * 1000 > 0) by (nonlinear_arith)
        requires
            b > 0,
    ;
    vstd::arithmetic::div_mod::lemma_div_denominator(a * 1000, 1000, b);
    assert((a * 1000) / 1000 == a) by (nonlinear_arith);
    assert(1000 * b == b * 1000);
}

/// The sign of a fixed-point product follows the signs of its factors.
pub proof fn lemma_smul_sign(a: int, b: int)
    ensures
        a >= 0 && b >= 0 ==> smul(a, b) >= 0,
        a >= 0 && b <= 0 ==> smul(a, b) <= 0,
{
    if a >= 0 && b >= 0 {
        assert(a * b >= 0) by (nonlinear_arith)
            requires
                a >= 0,
                b >= 0,
        ;
        if a * b > 0 {
            vstd::arithmetic::div_mod::lemma_div_is_ordered(0, a * b, 1000);
        }
    }
    if a >= 0 && b <= 0 {
        assert(a * b <= 0) by (nonlinear_arith)
            requires
                a >= 0,
                b <= 0,
        ;
        if a * b < 0 {
            assert((a * b) * -1 > 0) by (nonlinear_arith)
                requires
                    a * b < 0,
            ;
            vstd::arithmetic::div_mod::lemma_div_is_ordered(0, (a * b) * -1, 1000);
            assert(div_t(a * b, 1000) == ((a * b) * -1) / 1000 * -1);
        }
    }
}

/// Clamp a scalar into `[lo, hi]`.
pub fn fx_clamp(a: i64, lo: i64, hi: i64) -> (r: i64)
    requires
        lo <= hi,
    ensures
        r == clamp(a as int, lo as int, hi as int),
{
    if a < lo {
        lo
    } else if a > hi {
        hi
    } else {
        a
    }
}

/// Clamp on mathematical integers.
pub open spec fn clamp(a: int, lo: int, hi: int) -> int {
    if a < lo {
        lo
    } else if a > hi {
        hi
    } else {
        a
    }
}

} // verus!
