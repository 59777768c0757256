//! Why a plane holds the points it was built from, and why the point that
//! the plane intersection computes lies on the plane.

use crate::basics::Vec3;
use crate::numeric::{abs, lemma_distribute3, lemma_quot, quot};
use crate::raycast::RayView;
use crate::shapes::{Plane, SceneObject};
use vstd::prelude::*;

verus! {

/// The dot product distributes over a difference.
pub proof fn lemma_dot_minus(a: Vec3, b: Vec3, c: Vec3)
    ensures
        a.minus(b).dot(c) == a.dot(c) - b.dot(c),
{
    assert((a.x - b.x) * c.x == a.x * c.x - b.x * c.x) by (nonlinear_arith);
    assert((a.y - b.y) * c.y == a.y * c.y - b.y * c.y) by (nonlinear_arith);
    assert((a.z - b.z) * c.z == a.z * c.z - b.z * c.z) by (nonlinear_arith);
}

/// A cross product is perpendicular to both of its factors.
pub proof fn lemma_cross_perpendicular(e: Vec3, f: Vec3)
    ensures
        e.dot(e.cross(f)) == 0,
        f.dot(e.cross(f)) == 0,
{
    let c = e.cross(f);
    assert(e.x * (e.y * f.z - e.z * f.y) == (e.x * e.y) * f.z - (e.x * e.z) * f.y)
        by (nonlinear_arith);
    assert(e.y * (e.z * f.x - e.x * f.z) == (e.y * e.z) * f.x - (e.x * e.y) * f.z)
        by (nonlinear_arith);
    assert(e.z * (e.x * f.y - e.y * f.x) == (e.x * e.z) * f.y - (e.y * e.z) * f.x)
        by (nonlinear_arith);
    assert(f.x * (e.y * f.z - e.z * f.y) == (f.x * f.z) * e.y - (f.x * f.y) * e.z)
        by (nonlinear_arith);
    assert(f.y * (e.z * f.x - e.x * f.z) == (f.x * f.y) * e.z - (f.y * f.z) * e.x)
        by (nonlinear_arith);
    assert(f.z * (e.x * f.y - e.y * f.x) == (f.y * f.z) * e.x - (f.x * f.z) * e.y)
        by (nonlinear_arith);
}

/// The plane through three points holds each of them exactly.
pub proof fn lemma_plane_contains_points(first: Vec3, second: Vec3, third: Vec3)
    ensures
        ({
            let n = Plane::coefficients_through(first, second, third);
            second.dot(n) == first.dot(n) && third.dot(n) == first.dot(n)
        }),
{
    let e = second.minus(first);
    let f = third.minus(first);
    let n = e.cross(f);
    lemma_cross_perpendicular(e, f);
    lemma_dot_minus(second, first, n);
    lemma_dot_minus(third, first, n);
}

/// One coordinate of the computed point: the part of the plane equation
/// that it carries, times the denominator.
proof fn lemma_plane_coordinate(o: int, d: int, c: int, num: int, den: int) -> (g: int)
    requires
        den > 0,
    ensures
        den * ((o + quot(d * num, den)) * c) == den * (o * c) + num * (d * c) - g,
        abs(g) <= (den - 1) * abs(c),
{
    lemma_quot(d * num, den);
    let t = quot(d * num, den);
    let r = d * num - den * t;
    assert(den * ((o + t) * c) == den * (o * c) + (den * t) * c) by (nonlinear_arith);
    assert((d * num - r) * c == num * (d * c) - r * c) by (nonlinear_arith);
    assert(abs(r * c) <= (den - 1) * abs(c)) by (nonlinear_arith)
        requires
            abs(r) <= den - 1,
    ;
    r * c
}

/// The point that the intersection computes lies on the plane, within the
/// tolerance.
pub proof fn lemma_plane_point_on_surface(plane: Plane, ray: RayView, num: int, den: int)
    requires
        plane.wf(),
        den > 0,
        ({
            let slope = ray.direction.dot(plane.coefficients@);
            let height = plane.point_on@.minus(ray.origin).dot(plane.coefficients@);
            (num == height && den == slope) || (num == -height && den == -slope)
        }),
    ensures
        plane.on_surface(ray.travel(num, den)),
{
    let c = plane.coefficients@;
    let o = ray.origin;
    let d = ray.direction;
    let p = ray.travel(num, den);
    let slope = d.dot(c);
    let height = plane.point_on@.minus(o).dot(c);
    lemma_dot_minus(plane.point_on@, o, c);
    let gx = lemma_plane_coordinate(o.x, d.x, c.x, num, den);
    let gy = lemma_plane_coordinate(o.y, d.y, c.y, num, den);
    let gz = lemma_plane_coordinate(o.z, d.z, c.z, num, den);
    lemma_distribute3(den, p.x * c.x, p.y * c.y, p.z * c.z);
    lemma_distribute3(den, o.x * c.x, o.y * c.y, o.z * c.z);
    lemma_distribute3(num, d.x * c.x, d.y * c.y, d.z * c.z);
    lemma_distribute3(den - 1, abs(c.x), abs(c.y), abs(c.z));
    let g = gx + gy + gz;
    assert(den * p.dot(c) == den * o.dot(c) + num * slope - g);
    assert(num * slope == den * height) by (nonlinear_arith)
        requires
            (num == height && den == slope) || (num == -height && den == -slope),
    ;
    let rest = plane.residual(p);
    assert(den * rest == den * p.dot(c) - den * plane.scalar) by (nonlinear_arith)
        requires
            rest == p.dot(c) - plane.scalar,
    ;
    assert(den * height == den * plane.scalar - den * o.dot(c)) by (nonlinear_arith)
        requires
            height == plane.scalar - o.dot(c),
    ;
    assert(den * rest == -g);
    assert(abs(g) <= (den - 1) * c.norm1());
    assert(abs(rest) < c.norm1()) by (nonlinear_arith)
        requires
            den * rest == -g,
            abs(g) <= (den - 1) * c.norm1(),
            den > 0,
            c.norm1() > 0,
    ;
}

} // verus!
