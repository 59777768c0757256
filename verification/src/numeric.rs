//! Fixed-point conventions and the integer arithmetic the geometry rests on.
//!
//! Lengths and coordinates are integers counted in units of `1 / ONE`.
//! Products of two lengths are therefore counted in units of `1 / ONE²`;
//! they are kept exact in `i128` and only brought back to lengths by an
//! explicit, truncating division or by an integer square root.

use vstd::prelude::*;

verus! {

/// The fixed-point representation of the number one.
pub const ONE: i64 = 1_000_000;

/// The geometric tolerance, one thousandth, as a length.
pub const EPSILON: i64 = 1_000;

/// Largest absolute value of a coordinate of anything placed in a scene,
/// and of any intersection point that is returned.
pub const WORLD_MAX: i64 = 10_000_000_000;

/// Largest absolute value of a coordinate of a ray's origin: a point of the
/// world, moved off a surface by at most the tolerance.
pub const ORIGIN_MAX: i64 = 10_000_001_000;

/// The tolerance as a product of four lengths: below it the discriminant
/// of the ray and sphere quadratic counts as no intersection.
pub const DISC_EPSILON: i128 = 1_000_000_000_000_000_000_000;

/// The tolerance as a product of three lengths: the unit in which a plane
/// equation is evaluated.
pub const PLANE_EPSILON: i128 = 1_000_000_000_000_000;

/// Largest absolute value of a vector component on which every vector
/// operation is defined without overflow.
pub const COORD_MAX: i64 = 4_000_000_000_000_000_000;

/// Absolute value on mathematical integers.
pub open spec fn abs(a: int) -> int {
    if a >= 0 {
        a
    } else {
        -a
    }
}

/// Division that truncates toward zero, for a positive divisor.
pub open spec fn quot(a: int, b: int) -> int {
    if a >= 0 {
        a / b
    } else {
        -((-a) / b)
    }
}

/// Clamps `a` into the closed interval from `lo` to `hi`.
pub open spec fn clamp(a: int, lo: int, hi: int) -> int {
    if a < lo {
        lo
    } else if a > hi {
        hi
    } else {
        a
    }
}

/// `r` is the floor of the square root of `n`.
pub open spec fn is_root(n: int, r: int) -> bool {
    0 <= r && r * r <= n && n < (r + 1) * (r + 1)
}

/// The floor of the square root of `n`, for `n >= 0`.
pub open spec fn isqrt(n: int) -> int {
    choose|r: int| is_root(n, r)
}

/// The truncated quotient times the divisor misses the dividend by less
/// than the divisor, on the side of zero.
pub proof fn lemma_quot(a: int, b: int)
    requires
        b > 0,
    ensures
        a >= 0 ==> 0 <= a - b * quot(a, b) < b && 0 <= quot(a, b) <= a,
        a <= 0 ==> -b < a - b * quot(a, b) <= 0 && a <= quot(a, b) <= 0,
        abs(quot(a, b)) <= abs(a),
        abs(a - b * quot(a, b)) < b,
{
    if a >= 0 {
        assert(0 <= a - b * (a / b) < b && 0 <= a / b <= a) by (nonlinear_arith)
            requires
                a >= 0,
                b > 0,
        ;
    } else {
        let m = -a;
        assert(0 <= m - b * (m / b) < b && 0 <= m / b <= m) by (nonlinear_arith)
            requires
                m >= 0,
                b > 0,
        ;
        assert(b * (-(m / b)) == -(b * (m / b))) by (nonlinear_arith);
    }
}

/// On numbers that are not negative the truncated quotient grows with the
/// dividend.
pub proof fn lemma_quot_monotone(a: int, b: int, d: int)
    requires
        0 <= a <= b,
        d > 0,
    ensures
        0 <= quot(a, d) <= quot(b, d),
{
    lemma_quot(a, d);
    lemma_quot(b, d);
    let x = quot(a, d);
    let y = quot(b, d);
    assert(x <= y) by (nonlinear_arith)
        requires
            0 <= a - d * x < d,
            0 <= b - d * y < d,
            a <= b,
            d > 0,
    ;
}

/// Every natural number has an integer square root.
pub proof fn lemma_root_exists(n: int) -> (r: int)
    requires
        n >= 0,
    ensures
        is_root(n, r),
    decreases n,
{
    if n == 0 {
        0
    } else {
        let p = lemma_root_exists(n - 1);
        if (p + 1) * (p + 1) <= n {
            assert((p + 2) * (p + 2) > (p + 1) * (p + 1)) by (nonlinear_arith)
                requires
                    p >= 0,
            ;
            assert((p + 1 + 1) == p + 2);
            assert(n < (p + 1 + 1) * (p + 1 + 1)) by (nonlinear_arith)
                requires
                    n - 1 < (p + 1) * (p + 1),
                    p >= 0,
            ;
            p + 1
        } else {
            p
        }
    }
}

/// The integer square root is unique.
pub proof fn lemma_root_unique(n: int, r: int, s: int)
    requires
        is_root(n, r),
        is_root(n, s),
    ensures
        r == s,
{
    if r < s {
        assert((r + 1) * (r + 1) <= s * s) by (nonlinear_arith)
            requires
                0 <= r,
                r + 1 <= s,
        ;
    } else if s < r {
        assert((s + 1) * (s + 1) <= r * r) by (nonlinear_arith)
            requires
                0 <= s,
                s + 1 <= r,
        ;
    }
}

/// `isqrt` is the unique root of every natural number.
pub proof fn lemma_isqrt(n: int)
    requires
        n >= 0,
    ensures
        is_root(n, isqrt(n)),
        forall|r: int| is_root(n, r) ==> r == isqrt(n),
{
    let w = lemma_root_exists(n);
    assert(is_root(n, isqrt(n)));
    assert forall|r: int| is_root(n, r) implies r == isqrt(n) by {
        lemma_root_unique(n, r, isqrt(n));
    }
}

/// Four factors may be paired either way.
pub proof fn lemma_mul4(a: int, b: int, c: int, d: int)
    ensures
        (a * b) * (c * d) == (a * c) * (b * d),
{
    assert((a * b) * (c * d) == (a * c) * (b * d)) by (nonlinear_arith);
}

/// The square of a sum and of a difference.
pub proof fn lemma_square2(x: int, y: int)
    ensures
        (x + y) * (x + y) == x * x + 2 * (x * y) + y * y,
        (x - y) * (x - y) == x * x - 2 * (x * y) + y * y,
{
    assert((x + y) * (x + y) == x * x + 2 * (x * y) + y * y) by (nonlinear_arith);
    assert((x - y) * (x - y) == x * x - 2 * (x * y) + y * y) by (nonlinear_arith);
}

/// A factor distributes over a sum of three.
pub proof fn lemma_distribute3(k: int, a: int, b: int, c: int)
    ensures
        k * (a + b + c) == k * a + k * b + k * c,
{
    assert(k * (a + b + c) == k * a + k * b + k * c) by (nonlinear_arith);
}

/// A common positive factor cancels from an inequality.
pub proof fn lemma_cancel(k: int, x: int, y: int)
    requires
        k > 0,
        k * x <= k * y,
    ensures
        x <= y,
{
    assert(x <= y) by (nonlinear_arith)
        requires
            k > 0,
            k * x <= k * y,
    ;
}

/// A number whose square is at most the square of a bound is at most the
/// bound.
pub proof fn lemma_abs_below(u: int, b: int)
    requires
        u * u <= b * b,
        b >= 0,
    ensures
        abs(u) <= b,
{
    if u > b {
        assert(u * u > b * b) by (nonlinear_arith)
            requires
                u > b,
                b >= 0,
        ;
    }
    if -u > b {
        assert(u * u > b * b) by (nonlinear_arith)
            requires
                -u > b,
                b >= 0,
        ;
    }
}

/// A product of two bounded integers is bounded by the product of the bounds.
pub proof fn lemma_product_bound(a: int, b: int, ma: int, mb: int)
    requires
        abs(a) <= ma,
        abs(b) <= mb,
    ensures
        abs(a * b) <= ma * mb,
        -(ma * mb) <= a * b <= ma * mb,
{
    assert(-(ma * mb) <= a * b <= ma * mb) by (nonlinear_arith)
        requires
            -ma <= a <= ma,
            -mb <= b <= mb,
    ;
}

/// A root is at most `b` when its square is at most `b * b`.
pub proof fn lemma_root_below(n: int, r: int, b: int)
    requires
        0 <= r,
        0 <= b,
        r * r <= n,
        n <= b * b,
    ensures
        r <= b,
{
    if r > b {
        assert(r * r > b * b) by (nonlinear_arith)
            requires
                r > b,
                b >= 0,
        ;
    }
}

/// Computes the floor of the square root by bisection.
pub fn int_sqrt(n: u128) -> (r: u64)
    ensures
        r == isqrt(n as int),
        is_root(n as int, r as int),
{
    let mut lo: u128 = 0;
    let mut hi: u128 = 0x1_0000_0000_0000_0000;
    assert(hi * hi > n) by (nonlinear_arith)
        requires
            hi == 0x1_0000_0000_0000_0000,
            n <= u128::MAX,
    ;
    while hi - lo > 1
        invariant
            lo < hi <= 0x1_0000_0000_0000_0000,
            lo * lo <= n,
            n < hi * hi,
        decreases hi - lo,
    {
        let mid: u128 = lo + (hi - lo) / 2;
        assert(mid * mid <= 0xffff_ffff_ffff_ffff * 0xffff_ffff_ffff_ffff) by (nonlinear_arith)
            requires
                0 <= mid <= 0xffff_ffff_ffff_ffff,
        ;
        if mid * mid <= n {
            lo = mid;
        } else {
            hi = mid;
        }
    }
    proof {
        assert(hi == lo + 1);
        assert(is_root(n as int, lo as int));
        lemma_isqrt(n as int);
    }
    lo as u64
}

} // verus!
