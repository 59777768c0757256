//! Why the point that the sphere intersection computes lies on the sphere.
//!
//! With `w` the vector from the center to the origin of the ray, `d` its
//! direction, `A = d.d`, `B = 2 d.w`, and `n = -B ± s` for `s` the integer
//! root of the discriminant, the exact point `w + d n / (2 A)` has squared
//! distance `r² - (disc - s²) / (4 A)` from the center. Truncating the
//! three quotients moves it by less than one unit along each axis.

use crate::basics::{lemma_cauchy_schwarz, lemma_nonzero_norm2, Vec3};
use crate::numeric::{
    abs, isqrt, lemma_abs_below, lemma_cancel, lemma_distribute3, lemma_isqrt, lemma_mul4,
    lemma_quot, lemma_square2, quot, DISC_EPSILON, EPSILON,
};
use crate::raycast::RayView;
use crate::shapes::{if_in_world, SceneObject, Sphere};
use vstd::prelude::*;

verus! {

/// The square of one scaled coordinate, expanded.
proof fn lemma_square_term(den: int, w: int, d: int, n: int)
    ensures
        (den * w + d * n) * (den * w + d * n) == (den * den) * (w * w) + 2 * ((den * n) * (d * w))
            + (n * n) * (d * d),
{
    let x = den * w;
    let y = d * n;
    lemma_square2(x, y);
    lemma_mul4(den, w, den, w);
    lemma_mul4(den, w, n, d);
    lemma_mul4(n, d, n, d);
    assert(d * n == n * d) by (nonlinear_arith);
    assert(w * d == d * w) by (nonlinear_arith);
}

/// The squared length of `den * w + n * d`, expanded.
proof fn lemma_scaled_sum_norm2(d: Vec3, w: Vec3, n: int, den: int)
    ensures
        (den * w.x + d.x * n) * (den * w.x + d.x * n) + (den * w.y + d.y * n) * (den * w.y + d.y
            * n) + (den * w.z + d.z * n) * (den * w.z + d.z * n) == (den * den) * w.norm2() + 2 * (
        (den * n) * d.dot(w)) + (n * n) * d.norm2(),
{
    lemma_square_term(den, w.x, d.x, n);
    lemma_square_term(den, w.y, d.y, n);
    lemma_square_term(den, w.z, d.z, n);
    lemma_distribute3(den * den, w.x * w.x, w.y * w.y, w.z * w.z);
    lemma_distribute3(den * n, d.x * w.x, d.y * w.y, d.z * w.z);
    lemma_distribute3(n * n, d.x * d.x, d.y * d.y, d.z * d.z);
}

/// The squared length of the exact point, times `(2 A)²`: it is
/// `4 A² r² - A (disc - s²)`.
proof fn lemma_exact_point(a: int, hb: int, ww: int, rr: int, s: int, n: int, su: int)
    requires
        su == ((2 * a) * (2 * a)) * ww + 2 * (((2 * a) * n) * hb) + (n * n) * a,
        n + 2 * hb == s || n + 2 * hb == -s,
    ensures
        su == 4 * ((a * a) * rr) - a * (((2 * hb) * (2 * hb) - 4 * (a * (ww - rr))) - s * s),
{
    let b = 2 * hb;
    let aa = a * a;
    let nn = n * n;
    let nb = n * b;
    let bb = b * b;
    let ss = s * s;
    let disc = bb - 4 * (a * (ww - rr));
    assert(((2 * a) * (2 * a)) * ww == 4 * (aa * ww)) by (nonlinear_arith)
        requires
            aa == a * a,
    ;
    assert(2 * (((2 * a) * n) * hb) == 2 * (a * nb)) by (nonlinear_arith)
        requires
            nb == n * (2 * hb),
    ;
    assert(nn * a == a * nn) by (nonlinear_arith);
    assert(a * (2 * nb + nn) == 2 * (a * nb) + a * nn) by (nonlinear_arith);
    lemma_square2(n, b);
    assert((n + b) * (n + b) == ss) by (nonlinear_arith)
        requires
            n + b == s || n + b == -s,
            ss == s * s,
    ;
    assert(2 * nb + nn == ss - bb);
    assert(su == 4 * (aa * ww) + a * (ss - bb));
    assert(a * (ww - rr) == a * ww - a * rr) by (nonlinear_arith);
    let aww = a * ww;
    let arr = a * rr;
    assert(bb == disc + 4 * aww - 4 * arr);
    assert(a * (ss - bb) == a * ss - a * disc - 4 * (a * aww) + 4 * (a * arr)) by (nonlinear_arith)
        requires
            bb == disc + 4 * aww - 4 * arr,
    ;
    assert(a * aww == aa * ww) by (nonlinear_arith)
        requires
            aww == a * ww,
            aa == a * a,
    ;
    assert(a * arr == aa * rr) by (nonlinear_arith)
        requires
            arr == a * rr,
            aa == a * a,
    ;
    assert(a * (disc - ss) == a * disc - a * ss) by (nonlinear_arith);
}

/// How far the square of `u - g` can lie from the square of `u`.
proof fn lemma_shifted_square(u: int, g: int, ub: int, gb: int)
    requires
        abs(u) <= ub,
        abs(g) <= gb,
    ensures
        u * u - 2 * (ub * gb) <= (u - g) * (u - g) <= u * u + 2 * (ub * gb) + gb * gb,
{
    lemma_square2(u, g);
    assert(-(ub * gb) <= u * g <= ub * gb) by (nonlinear_arith)
        requires
            -ub <= u <= ub,
            -gb <= g <= gb,
    ;
    assert(0 <= g * g <= gb * gb) by (nonlinear_arith)
        requires
            -gb <= g <= gb,
    ;
}

/// One coordinate of the computed point, times the denominator, and the
/// square of that.
proof fn lemma_coordinate(den: int, w: int, d: int, n: int, bound: int)
    requires
        den > 0,
        abs(den * w + d * n) <= bound,
    ensures
        ({
            let p = w + quot(d * n, den);
            let u = den * w + d * n;
            u * u - 2 * (bound * den) <= (den * den) * (p * p) <= u * u + 2 * (bound * den) + den
                * den
        }),
{
    lemma_quot(d * n, den);
    let t = quot(d * n, den);
    let p = w + t;
    let u = den * w + d * n;
    let g = d * n - den * t;
    assert(den * (w + t) == den * w + den * t) by (nonlinear_arith);
    lemma_shifted_square(u, g, bound, den);
    lemma_mul4(den, p, den, p);
}

/// The squared distance of the computed point from the center lies close
/// to the square of the radius.
proof fn lemma_sphere_distance(d: Vec3, w: Vec3, r: int, s: int, n: int) -> (q: int)
    requires
        r >= 0,
        d.norm2() >= 1,
        s >= 0,
        ({
            let disc = (2 * d.dot(w)) * (2 * d.dot(w)) - 4 * (d.norm2() * (w.norm2() - r * r));
            s * s <= disc < (s + 1) * (s + 1)
        }),
        n == -(2 * d.dot(w)) - s || n == -(2 * d.dot(w)) + s,
    ensures
        q == w.plus(d.scaled(n, 2 * d.norm2())).norm2(),
        r * r - 7 * r <= q <= r * r + 6 * r + 3,
{
    let a = d.norm2();
    let hb = d.dot(w);
    let b = 2 * hb;
    let ww = w.norm2();
    let rr = r * r;
    let aa = a * a;
    let den = 2 * a;
    let disc = b * b - 4 * (a * (ww - rr));
    let delta = disc - s * s;
    let p = w.plus(d.scaled(n, den));
    let q = p.norm2();
    let ux = den * w.x + d.x * n;
    let uy = den * w.y + d.y * n;
    let uz = den * w.z + d.z * n;
    let su = ux * ux + uy * uy + uz * uz;
    let ar = a * r;
    let bound = 2 * ar;

    lemma_scaled_sum_norm2(d, w, n, den);
    lemma_exact_point(a, hb, ww, rr, s, n, su);
    assert(su == 4 * (aa * rr) - a * delta);

    // the root of the discriminant is at most 2 A r
    lemma_cauchy_schwarz(d, w);
    assert(b * b == 4 * (hb * hb)) by (nonlinear_arith)
        requires
            b == 2 * hb,
    ;
    assert(a * (ww - rr) == a * ww - a * rr) by (nonlinear_arith);
    assert(disc <= 4 * (a * rr));
    assert(a * rr <= aa * rr) by (nonlinear_arith)
        requires
            a >= 1,
            rr >= 0,
            aa == a * a,
    ;
    assert(rr >= 0) by (nonlinear_arith)
        requires
            rr == r * r,
    ;
    lemma_mul4(a, r, a, r);
    assert(bound * bound == 4 * (aa * rr)) by (nonlinear_arith)
        requires
            bound == 2 * ar,
            ar * ar == aa * rr,
    ;
    assert(ar >= 0) by (nonlinear_arith)
        requires
            a >= 1,
            r >= 0,
            ar == a * r,
    ;
    lemma_abs_below(s, bound);
    assert(0 <= delta <= 2 * s) by (nonlinear_arith)
        requires
            delta == disc - s * s,
            s * s <= disc < (s + 1) * (s + 1),
    ;
    assert(aa * r == a * ar) by (nonlinear_arith)
        requires
            aa == a * a,
            ar == a * r,
    ;
    assert(0 <= a * delta <= 4 * (aa * r)) by (nonlinear_arith)
        requires
            0 <= delta <= 4 * ar,
            a >= 1,
            aa * r == a * ar,
    ;
    // each coordinate of the exact point is at most 2 A r
    assert(ux * ux >= 0 && uy * uy >= 0 && uz * uz >= 0) by (nonlinear_arith);
    lemma_abs_below(ux, bound);
    lemma_abs_below(uy, bound);
    lemma_abs_below(uz, bound);
    // truncation moves each coordinate by less than one unit
    lemma_coordinate(den, w.x, d.x, n, bound);
    lemma_coordinate(den, w.y, d.y, n, bound);
    lemma_coordinate(den, w.z, d.z, n, bound);
    let k = den * den;
    lemma_distribute3(k, p.x * p.x, p.y * p.y, p.z * p.z);
    assert(k == 4 * aa) by (nonlinear_arith)
        requires
            k == den * den,
            den == 2 * a,
            aa == a * a,
    ;
    assert(bound * den == 4 * (aa * r)) by (nonlinear_arith)
        requires
            bound == 2 * ar,
            den == 2 * a,
            aa * r == a * ar,
    ;
    assert(k * q <= su + 6 * (bound * den) + 3 * k);
    assert(k * q >= su - 6 * (bound * den));
    assert(aa >= 1) by (nonlinear_arith)
        requires
            a >= 1,
            aa == a * a,
    ;
    let hi = rr + 6 * r + 3;
    let lo = rr - 7 * r;
    assert(k * hi == 4 * (aa * rr) + 24 * (aa * r) + 12 * aa) by (nonlinear_arith)
        requires
            k == 4 * aa,
            hi == rr + 6 * r + 3,
    ;
    assert(k * lo == 4 * (aa * rr) - 28 * (aa * r)) by (nonlinear_arith)
        requires
            k == 4 * aa,
            lo == rr - 7 * r,
    ;
    lemma_cancel(k, q, hi);
    lemma_cancel(k, lo, q);
    q
}

/// The point that the intersection computes from either root of the
/// quadratic lies on the sphere, within the tolerance.
pub proof fn lemma_sphere_point_on_surface(sphere: Sphere, ray: RayView, n: int)
    requires
        sphere.wf(),
        !ray.direction.is_zero(),
        sphere.discriminant(ray) >= 0,
        n == -sphere.quad_b(ray) - isqrt(sphere.discriminant(ray)) || n == -sphere.quad_b(ray)
            + isqrt(sphere.discriminant(ray)),
    ensures
        sphere.on_surface(ray.travel(n, 2 * sphere.quad_a(ray))),
{
    let d = ray.direction;
    let w = ray.origin.minus(sphere.center@);
    let r = sphere.radius as int;
    let disc = sphere.discriminant(ray);
    let s = isqrt(disc);
    lemma_isqrt(disc);
    lemma_nonzero_norm2(d);
    assert(4 * d.norm2() * (w.norm2() - r * r) == 4 * (d.norm2() * (w.norm2() - r * r)))
        by (nonlinear_arith);
    let q = lemma_sphere_distance(d, w, r, s, n);
    let p = ray.travel(n, 2 * sphere.quad_a(ray));
    assert(p.minus(sphere.center@) == w.plus(d.scaled(n, 2 * d.norm2())));
    assert(p.dist2(sphere.center@) == q);
    assert((r + EPSILON) * (r + EPSILON) == r * r + 2000 * r + 1_000_000) by (nonlinear_arith);
    assert((r - EPSILON) * (r - EPSILON) == r * r - 2000 * r + 1_000_000) by (nonlinear_arith);
}

/// A ray that starts outside a sphere and does not point toward it does
/// not meet it.
pub proof fn lemma_sphere_behind_ray(sphere: Sphere, ray: RayView)
    requires
        !ray.direction.is_zero(),
        ray.origin.dist2(sphere.center@) > sphere.radius * sphere.radius,
        ray.direction.dot(ray.origin.minus(sphere.center@)) >= 0,
    ensures
        sphere.hit(ray) is None,
{
    let a = sphere.quad_a(ray);
    let b = sphere.quad_b(ray);
    let c = sphere.quad_c(ray);
    let disc = sphere.discriminant(ray);
    lemma_nonzero_norm2(ray.direction);
    if disc >= 0 {
        lemma_isqrt(disc);
        let s = isqrt(disc);
        assert(4 * a * c > 0) by (nonlinear_arith)
            requires
                a >= 1,
                c > 0,
        ;
        assert(s < b) by (nonlinear_arith)
            requires
                s * s < b * b,
                s >= 0,
                b >= 0,
        ;
    }
}

/// A ray that starts outside a sphere and runs toward its center meets the
/// sphere at the nearer of the two roots, and the point computed there lies
/// on the sphere.
pub proof fn lemma_sphere_through_center(sphere: Sphere, ray: RayView)
    requires
        sphere.wf(),
        !ray.direction.is_zero(),
        ray.origin.dist2(sphere.center@) > sphere.radius * sphere.radius,
        ray.direction.cross(ray.origin.minus(sphere.center@)).is_zero(),
        ray.direction.dot(ray.origin.minus(sphere.center@)) < 0,
        4 * (ray.direction.norm2() * (sphere.radius * sphere.radius)) >= DISC_EPSILON,
    ensures
        ({
            let near = -sphere.quad_b(ray) - isqrt(sphere.discriminant(ray));
            let p = ray.travel(near, 2 * sphere.quad_a(ray));
            &&& near > 0
            &&& sphere.on_surface(p)
            &&& sphere.hit(ray) == if_in_world(p)
        }),
{
    let d = ray.direction;
    let w = ray.origin.minus(sphere.center@);
    let a = sphere.quad_a(ray);
    let b = sphere.quad_b(ray);
    let hb = d.dot(w);
    let ww = w.norm2();
    let rr = sphere.radius * sphere.radius;
    let disc = sphere.discriminant(ray);
    lemma_nonzero_norm2(d);
    lemma_cauchy_schwarz(d, w);
    assert(d.cross(w).norm2() == 0);
    assert(b * b == 4 * (hb * hb)) by (nonlinear_arith)
        requires
            b == 2 * hb,
    ;
    assert(4 * a * (ww - rr) == 4 * (a * ww) - 4 * (a * rr)) by (nonlinear_arith);
    assert(disc == 4 * (a * rr));
    lemma_isqrt(disc);
    let s = isqrt(disc);
    assert(a * rr < a * ww) by (nonlinear_arith)
        requires
            a >= 1,
            rr < ww,
    ;
    assert(s < -b) by (nonlinear_arith)
        requires
            s * s < b * b,
            s >= 0,
            b < 0,
    ;
    lemma_sphere_point_on_surface(sphere, ray, -b - s);
}

} // verus!
