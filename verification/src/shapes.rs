//! The surfaces a scene is made of, and its lights.

use crate::basics::{lemma_cross_bound, lemma_norm2_bounds, Vec3, Vector3};
use crate::material::{Color, Material};
use crate::numeric::{
    abs, int_sqrt, isqrt, lemma_isqrt, lemma_product_bound, lemma_quot, DISC_EPSILON, EPSILON,
    ONE, PLANE_EPSILON, WORLD_MAX,
};
use crate::plane_proofs::{lemma_plane_contains_points, lemma_plane_point_on_surface};
use crate::raycast::{Ray, RayView};
use crate::sphere_proofs::lemma_sphere_point_on_surface;
use vstd::prelude::*;

verus! {

/// The point lies in the box that holds the world.
pub open spec fn in_world(p: Vec3) -> bool {
    p.within(WORLD_MAX as int)
}

/// A computed intersection counts only if it lies in the world.
pub open spec fn if_in_world(p: Vec3) -> Option<Vec3> {
    if in_world(p) {
        Some(p)
    } else {
        None
    }
}

/// Decides whether a point lies in the world.
pub fn is_in_world(p: &Vector3) -> (res: bool)
    ensures
        res == in_world(p@),
{
    let m: i64 = WORLD_MAX;
    -m <= p.x && p.x <= m && -m <= p.y && p.y <= m && -m <= p.z && p.z <= m
}

/// The sum of the absolute values of the components.
pub fn taxicab(v: &Vector3) -> (res: i128)
    ensures
        res == v@.norm1(),
{
    let x: i128 = if v.x < 0 {
        -(v.x as i128)
    } else {
        v.x as i128
    };
    let y: i128 = if v.y < 0 {
        -(v.y as i128)
    } else {
        v.y as i128
    };
    let z: i128 = if v.z < 0 {
        -(v.z as i128)
    } else {
        v.z as i128
    };
    x + y + z
}

/// What every surface of a scene can do: meet a ray, give its normal at a
/// point of itself, and name its material.
pub trait SceneObject {
    /// The surface is one that the operations below are defined on.
    spec fn wf(&self) -> bool;

    /// Where the ray meets the surface first, if it does.
    spec fn hit(&self, ray: RayView) -> Option<Vec3>;

    /// The point lies on the surface, within the tolerance.
    spec fn on_surface(&self, point: Vec3) -> bool;

    /// The normal of the surface at a point of it, of length about `ONE`.
    spec fn normal_at(&self, point: Vec3) -> Vec3;

    /// The material that the surface was built with.
    spec fn material(&self) -> Material;

    fn ray_intersects(&self, ray: &Ray) -> (res: Option<Vector3>)
        requires
            self.wf(),
            ray.wf(),
        ensures
            res matches Some(p) ==> self.hit(ray@) == Some(p@),
            res is None ==> self.hit(ray@) is None,
            res matches Some(p) ==> in_world(p@) && self.on_surface(p@),
    ;

    fn normal(&self, point: &Vector3) -> (res: Vector3)
        requires
            self.wf(),
            in_world(point@),
            self.on_surface(point@),
        ensures
            res@ == self.normal_at(point@),
            res@.within(ONE as int),
            res@.is_zero() || res@.norm2() >= ONE * ONE - 4 * ONE,
    ;

    fn get_material(&self) -> (res: &Material)
        ensures
            *res == self.material(),
    ;
}

/// The largest numerator of a fraction of the direction that `advance`
/// takes.
pub const STEP_MAX: i128 = 1_000_000_000_000_000_000_000_000_000_000;

/// Walks from the origin of the ray along its direction by the fraction
/// `num / den` and returns the point reached if it lies in the world.
pub fn advance(ray: &Ray, num: i128, den: i128) -> (res: Option<Vector3>)
    requires
        ray.wf(),
        den > 0,
        abs(num as int) <= STEP_MAX,
    ensures
        res matches Some(p) ==> if_in_world(ray@.travel(num as int, den as int)) == Some(p@),
        res is None ==> if_in_world(ray@.travel(num as int, den as int)) is None,
{
    proof {
        lemma_product_bound(ray.direction.x as int, num as int, ONE as int, STEP_MAX as int);
        lemma_product_bound(ray.direction.y as int, num as int, ONE as int, STEP_MAX as int);
        lemma_product_bound(ray.direction.z as int, num as int, ONE as int, STEP_MAX as int);
        lemma_quot(ray.direction.x * num, den as int);
        lemma_quot(ray.direction.y * num, den as int);
        lemma_quot(ray.direction.z * num, den as int);
    }
    let x: i128 = ray.origin.x as i128 + (ray.direction.x as i128 * num) / den;
    let y: i128 = ray.origin.y as i128 + (ray.direction.y as i128 * num) / den;
    let z: i128 = ray.origin.z as i128 + (ray.direction.z as i128 * num) / den;
    let m: i128 = WORLD_MAX as i128;
    if -m <= x && x <= m && -m <= y && y <= m && -m <= z && z <= m {
        Some(Vector3 { x: x as i64, y: y as i64, z: z as i64 })
    } else {
        None
    }
}

/// A sphere.
#[derive(Copy, Clone, Debug, PartialEq, Eq, Structural)]
pub struct Sphere {
    pub radius: i64,
    pub center: Vector3,
    pub material: Material,
}

impl Sphere {
    pub fn new(radius: i64, center: Vector3, material: Material) -> (res: Self)
        ensures
            res.radius == radius,
            res.center == center,
            res.material == material,
    {
        Sphere { radius, center, material }
    }

    /// Decides whether the sphere is well formed.
    pub fn is_valid(&self) -> (res: bool)
        ensures
            res == self.wf(),
    {
        0 <= self.radius && self.radius <= WORLD_MAX && is_in_world(&self.center)
    }

    /// The coefficient `A` of the quadratic: the squared length of the
    /// direction.
    pub open spec fn quad_a(&self, ray: RayView) -> int {
        ray.direction.norm2()
    }

    /// The coefficient `B` of the quadratic.
    pub open spec fn quad_b(&self, ray: RayView) -> int {
        2 * ray.direction.dot(ray.origin.minus(self.center@))
    }

    /// The coefficient `C` of the quadratic.
    pub open spec fn quad_c(&self, ray: RayView) -> int {
        ray.origin.minus(self.center@).norm2() - self.radius * self.radius
    }

    /// The discriminant of the quadratic.
    pub open spec fn discriminant(&self, ray: RayView) -> int {
        self.quad_b(ray) * self.quad_b(ray) - 4 * self.quad_a(ray) * self.quad_c(ray)
    }
}

/// The numerator, over `2 * A`, of the smallest root that is not negative,
/// of a quadratic with the given `B` and discriminant.
pub open spec fn nearest_root(b: int, disc: int) -> Option<int> {
    let s = isqrt(disc);
    if -b - s >= 0 {
        Some(-b - s)
    } else if -b + s >= 0 {
        Some(-b + s)
    } else {
        None
    }
}

impl SceneObject for Sphere {
    open spec fn wf(&self) -> bool {
        0 <= self.radius <= WORLD_MAX && in_world(self.center@)
    }

    open spec fn hit(&self, ray: RayView) -> Option<Vec3> {
        if self.discriminant(ray) < DISC_EPSILON {
            None
        } else {
            match nearest_root(self.quad_b(ray), self.discriminant(ray)) {
                Some(n) => if_in_world(ray.travel(n, 2 * self.quad_a(ray))),
                None => None,
            }
        }
    }

    open spec fn on_surface(&self, point: Vec3) -> bool {
        let q = point.dist2(self.center@);
        let r = self.radius as int;
        &&& q < (r + EPSILON) * (r + EPSILON)
        &&& r >= EPSILON ==> q > (r - EPSILON) * (r - EPSILON)
    }

    open spec fn normal_at(&self, point: Vec3) -> Vec3 {
        let v = point.minus(self.center@);
        if v.is_zero() {
            v
        } else {
            v.unit()
        }
    }

    open spec fn material(&self) -> Material {
        self.material
    }

    fn ray_intersects(&self, ray: &Ray) -> (res: Option<Vector3>) {
        let d: Vector3 = *ray.get_direction();
        let w: Vector3 = *ray.get_origin() - self.center;
        let a: i128 = d.dot(d);
        let half_b: i128 = d.dot(w);
        let ww: i128 = w.dot(w);
        let r: i128 = self.radius as i128;
        proof {
            lemma_norm2_bounds(d@, ONE as int);
            lemma_norm2_bounds(w@, 20_000_001_000);
            lemma_product_bound(d.x as int, w.x as int, ONE as int, 20_000_001_000);
            lemma_product_bound(d.y as int, w.y as int, ONE as int, 20_000_001_000);
            lemma_product_bound(d.z as int, w.z as int, ONE as int, 20_000_001_000);
            lemma_product_bound(r as int, r as int, WORLD_MAX as int, WORLD_MAX as int);
        }
        let b: i128 = 2 * half_b;
        let c: i128 = ww - r * r;
        proof {
            lemma_product_bound(b as int, b as int, 120_000_006_000_000_000, 120_000_006_000_000_000);
            lemma_product_bound(
                a as int,
                c as int,
                3_000_000_000_000,
                1_300_000_000_000_000_000_000,
            );
            assert(4 * a * c == 4 * (a * c)) by (nonlinear_arith);
        }
        let disc: i128 = b * b - 4 * (a * c);
        if disc < DISC_EPSILON {
            return None;
        }
        let s: i128 = int_sqrt(disc as u128) as i128;
        proof {
            lemma_isqrt(disc as int);
            assert(self.discriminant(ray@) == disc);
            assert(self.quad_a(ray@) == a);
            assert(self.quad_b(ray@) == b);
        }
        let near: i128 = -b - s;
        let far: i128 = -b + s;
        if near >= 0 {
            proof {
                lemma_sphere_point_on_surface(*self, ray@, near as int);
            }
            advance(ray, near, 2 * a)
        } else if far >= 0 {
            proof {
                lemma_sphere_point_on_surface(*self, ray@, far as int);
            }
            advance(ray, far, 2 * a)
        } else {
            None
        }
    }

    fn normal(&self, point: &Vector3) -> (res: Vector3) {
        let v: Vector3 = *point - self.center;
        if v.x == 0 && v.y == 0 && v.z == 0 {
            v
        } else {
            v.norm()
        }
    }

    fn get_material(&self) -> (res: &Material) {
        &self.material
    }
}

/// A plane, kept as the equation `coefficients . P == scalar`.
#[derive(Copy, Clone, Debug, PartialEq, Eq, Structural)]
pub struct Plane {
    pub coefficients: Vector3,
    pub scalar: i128,
    pub point_on: Vector3,
    pub material: Material,
}

impl Plane {
    /// The coefficients of the plane through three points: the cross
    /// product of the two edges that leave the first point.
    pub open spec fn coefficients_through(first: Vec3, second: Vec3, third: Vec3) -> Vec3 {
        second.minus(first).cross(third.minus(first))
    }

    /// The plane through three points of the world that are not on one
    /// line. The coefficients are the exact cross product of two edges, so
    /// the edges must be short enough for the tolerance of the plane
    /// equation to exceed one unit of every coordinate. `through` decides
    /// whether they are.
    pub fn new(first: Vector3, second: Vector3, third: Vector3, material: Material) -> (res: Self)
        requires
            in_world(first@),
            in_world(second@),
            in_world(third@),
            0 < Self::coefficients_through(first@, second@, third@).norm1() <= PLANE_EPSILON,
        ensures
            res.coefficients@ == Self::coefficients_through(first@, second@, third@),
            res.scalar == first@.dot(res.coefficients@),
            res.point_on == first,
            res.material == material,
            res.wf(),
            first@.dot(res.coefficients@) == res.scalar,
            second@.dot(res.coefficients@) == res.scalar,
            third@.dot(res.coefficients@) == res.scalar,
    {
        let e: Vector3 = second - first;
        let f: Vector3 = third - first;
        let coefficients: Vector3 = e.cross(f);
        let scalar: i128 = first.dot(coefficients);
        proof {
            lemma_plane_contains_points(first@, second@, third@);
        }
        Plane { coefficients, scalar, material, point_on: first }
    }

    /// The plane through three points, where `new` is defined on them.
    pub fn through(first: Vector3, second: Vector3, third: Vector3, material: Material) -> (res: Option<Self>)
        ensures
            res is Some <==> {
                &&& in_world(first@)
                &&& in_world(second@)
                &&& in_world(third@)
                &&& 0 < Self::coefficients_through(first@, second@, third@).norm1() <= PLANE_EPSILON
            },
            res matches Some(plane) ==> {
                &&& plane.wf()
                &&& plane.coefficients@ == Self::coefficients_through(first@, second@, third@)
                &&& plane.scalar == first@.dot(plane.coefficients@)
                &&& plane.point_on == first
                &&& plane.material == material
            },
    {
        if !is_in_world(&first) || !is_in_world(&second) || !is_in_world(&third) {
            return None;
        }
        let e: Vector3 = second - first;
        let f: Vector3 = third - first;
        proof {
            lemma_cross_bound(e@, f@, 20_000_000_000, 20_000_000_000);
            lemma_product_bound(e.y as int, f.z as int, 20_000_000_000, 20_000_000_000);
            lemma_product_bound(e.z as int, f.y as int, 20_000_000_000, 20_000_000_000);
            lemma_product_bound(e.z as int, f.x as int, 20_000_000_000, 20_000_000_000);
            lemma_product_bound(e.x as int, f.z as int, 20_000_000_000, 20_000_000_000);
            lemma_product_bound(e.x as int, f.y as int, 20_000_000_000, 20_000_000_000);
            lemma_product_bound(e.y as int, f.x as int, 20_000_000_000, 20_000_000_000);
        }
        let x: i128 = e.y as i128 * f.z as i128 - e.z as i128 * f.y as i128;
        let y: i128 = e.z as i128 * f.x as i128 - e.x as i128 * f.z as i128;
        let z: i128 = e.x as i128 * f.y as i128 - e.y as i128 * f.x as i128;
        let ax: i128 = if x < 0 {
            -x
        } else {
            x
        };
        let ay: i128 = if y < 0 {
            -y
        } else {
            y
        };
        let az: i128 = if z < 0 {
            -z
        } else {
            z
        };
        let size: i128 = ax + ay + az;
        if 0 < size && size <= PLANE_EPSILON {
            Some(Plane::new(first, second, third, material))
        } else {
            None
        }
    }

    /// Decides whether the plane is well formed.
    pub fn is_valid(&self) -> (res: bool)
        ensures
            res == self.wf(),
    {
        let size: i128 = taxicab(&self.coefficients);
        if !is_in_world(&self.point_on) || size <= 0 || size > PLANE_EPSILON {
            return false;
        }
        self.scalar == self.point_on.dot(self.coefficients)
    }

    /// The value of the plane equation at a point, less the scalar.
    pub open spec fn residual(&self, point: Vec3) -> int {
        point.dot(self.coefficients@) - self.scalar
    }
}

impl SceneObject for Plane {
    open spec fn wf(&self) -> bool {
        &&& in_world(self.point_on@)
        &&& 0 < self.coefficients@.norm1() <= PLANE_EPSILON
        &&& self.scalar == self.point_on@.dot(self.coefficients@)
    }

    open spec fn hit(&self, ray: RayView) -> Option<Vec3> {
        let slope = ray.direction.dot(self.coefficients@);
        let height = self.point_on@.minus(ray.origin).dot(self.coefficients@);
        if abs(slope) < PLANE_EPSILON {
            if self.on_surface(ray.origin) {
                if_in_world(ray.origin)
            } else {
                None
            }
        } else if slope > 0 && height >= 0 {
            if_in_world(ray.travel(height, slope))
        } else if slope < 0 && height <= 0 {
            if_in_world(ray.travel(-height, -slope))
        } else {
            None
        }
    }

    open spec fn on_surface(&self, point: Vec3) -> bool {
        abs(self.residual(point)) < PLANE_EPSILON
    }

    open spec fn normal_at(&self, point: Vec3) -> Vec3 {
        self.coefficients@.unit()
    }

    open spec fn material(&self) -> Material {
        self.material
    }

    fn ray_intersects(&self, ray: &Ray) -> (res: Option<Vector3>) {
        let o: Vector3 = *ray.get_origin();
        let d: Vector3 = *ray.get_direction();
        let to_plane: Vector3 = self.point_on - o;
        proof {
            lemma_dot_bound(d@, self.coefficients@, ONE as int);
            lemma_dot_bound(o@, self.coefficients@, 10_000_001_000);
            lemma_dot_bound(self.point_on@, self.coefficients@, WORLD_MAX as int);
            lemma_dot_bound(to_plane@, self.coefficients@, 20_000_001_000);
        }
        let slope: i128 = d.dot(self.coefficients);
        if -PLANE_EPSILON < slope && slope < PLANE_EPSILON {
            let rest: i128 = o.dot(self.coefficients) - self.scalar;
            if -PLANE_EPSILON < rest && rest < PLANE_EPSILON {
                if is_in_world(&o) {
                    Some(o)
                } else {
                    None
                }
            } else {
                None
            }
        } else {
            let height: i128 = to_plane.dot(self.coefficients);
            if slope > 0 && height >= 0 {
                proof {
                    lemma_plane_point_on_surface(*self, ray@, height as int, slope as int);
                }
                advance(ray, height, slope)
            } else if slope < 0 && height <= 0 {
                proof {
                    lemma_plane_point_on_surface(*self, ray@, -height as int, -slope as int);
                }
                advance(ray, -height, -slope)
            } else {
                None
            }
        }
    }

    fn normal(&self, point: &Vector3) -> (res: Vector3) {
        self.coefficients.norm()
    }

    fn get_material(&self) -> (res: &Material) {
        &self.material
    }
}

/// A triangle: the part of the plane through its three corners that lies
/// between them.
#[derive(Copy, Clone, Debug, PartialEq, Eq, Structural)]
pub struct Triangle {
    pub first: Vector3,
    pub second: Vector3,
    pub third: Vector3,
    pub plane: Plane,
}

/// On which side of the edge from `start` to `end` the point lies, seen
/// against the normal `n`: positive on the left, zero on the line through
/// the edge, negative on the right.
pub open spec fn edge_side(start: Vec3, end: Vec3, point: Vec3, n: Vec3) -> int {
    end.minus(start).cross(point.minus(start)).dot(n)
}

/// Computes the side of an edge that a point lies on.
pub fn side_of(start: &Vector3, end: &Vector3, point: &Vector3, n: &Vector3) -> (res: i128)
    requires
        in_world(start@),
        in_world(end@),
        in_world(point@),
        n@.norm1() <= PLANE_EPSILON,
    ensures
        res == edge_side(start@, end@, point@, n@),
{
    let e: Vector3 = *end - *start;
    let q: Vector3 = *point - *start;
    proof {
        lemma_cross_bound(e@, q@, 20_000_000_000, 20_000_000_000);
        lemma_product_bound(e.y as int, q.z as int, 20_000_000_000, 20_000_000_000);
        lemma_product_bound(e.z as int, q.y as int, 20_000_000_000, 20_000_000_000);
        lemma_product_bound(e.z as int, q.x as int, 20_000_000_000, 20_000_000_000);
        lemma_product_bound(e.x as int, q.z as int, 20_000_000_000, 20_000_000_000);
        lemma_product_bound(e.x as int, q.y as int, 20_000_000_000, 20_000_000_000);
        lemma_product_bound(e.y as int, q.x as int, 20_000_000_000, 20_000_000_000);
    }
    let x: i128 = e.y as i128 * q.z as i128 - e.z as i128 * q.y as i128;
    let y: i128 = e.z as i128 * q.x as i128 - e.x as i128 * q.z as i128;
    let z: i128 = e.x as i128 * q.y as i128 - e.y as i128 * q.x as i128;
    proof {
        let bound = 800_000_000_000_000_000_000int;
        lemma_product_bound(x as int, n.x as int, bound, PLANE_EPSILON as int);
        lemma_product_bound(y as int, n.y as int, bound, PLANE_EPSILON as int);
        lemma_product_bound(z as int, n.z as int, bound, PLANE_EPSILON as int);
    }
    x * n.x as i128 + y * n.y as i128 + z * n.z as i128
}

impl Triangle {
    /// The triangle between three corners, on which `Plane::new` is
    /// defined.
    pub fn new(first: Vector3, second: Vector3, third: Vector3, material: Material) -> (res: Self)
        requires
            in_world(first@),
            in_world(second@),
            in_world(third@),
            0 < Plane::coefficients_through(first@, second@, third@).norm1() <= PLANE_EPSILON,
        ensures
            res.first == first,
            res.second == second,
            res.third == third,
            res.plane.coefficients@ == Plane::coefficients_through(first@, second@, third@),
            res.plane.point_on == first,
            res.plane.material == material,
            res.wf(),
    {
        Triangle { first, second, third, plane: Plane::new(first, second, third, material) }
    }

    /// The triangle between three corners, where `new` is defined on them.
    pub fn through(first: Vector3, second: Vector3, third: Vector3, material: Material) -> (res:
        Option<Self>)
        ensures
            res is Some <==> {
                &&& in_world(first@)
                &&& in_world(second@)
                &&& in_world(third@)
                &&& 0 < Plane::coefficients_through(first@, second@, third@).norm1()
                    <= PLANE_EPSILON
            },
            res matches Some(triangle) ==> {
                &&& triangle.wf()
                &&& triangle.first == first
                &&& triangle.second == second
                &&& triangle.third == third
                &&& triangle.plane.material == material
            },
    {
        match Plane::through(first, second, third, material) {
            Some(plane) => Some(Triangle { first, second, third, plane }),
            None => None,
        }
    }

    /// Decides whether the triangle is well formed.
    pub fn is_valid(&self) -> (res: bool)
        ensures
            res == self.wf(),
    {
        if !self.plane.is_valid() || !is_in_world(&self.first) || !is_in_world(&self.second)
            || !is_in_world(&self.third) {
            return false;
        }
        match Plane::through(self.first, self.second, self.third, self.plane.material) {
            Some(plane) => plane.coefficients.x == self.plane.coefficients.x
                && plane.coefficients.y == self.plane.coefficients.y && plane.coefficients.z
                == self.plane.coefficients.z && self.plane.point_on.x == self.first.x
                && self.plane.point_on.y == self.first.y && self.plane.point_on.z == self.first.z,
            None => false,
        }
    }

    /// The point lies between the three edges, or on one of them.
    pub open spec fn inside(&self, point: Vec3) -> bool {
        let n = self.plane.coefficients@;
        &&& edge_side(self.first@, self.second@, point, n) >= 0
        &&& edge_side(self.second@, self.third@, point, n) >= 0
        &&& edge_side(self.third@, self.first@, point, n) >= 0
    }
}

impl SceneObject for Triangle {
    open spec fn wf(&self) -> bool {
        &&& self.plane.wf()
        &&& in_world(self.first@)
        &&& in_world(self.second@)
        &&& in_world(self.third@)
        &&& self.plane.coefficients@ == Plane::coefficients_through(
            self.first@,
            self.second@,
            self.third@,
        )
        &&& self.plane.point_on == self.first
    }

    open spec fn hit(&self, ray: RayView) -> Option<Vec3> {
        match self.plane.hit(ray) {
            Some(p) => if self.inside(p) {
                Some(p)
            } else {
                None
            },
            None => None,
        }
    }

    open spec fn on_surface(&self, point: Vec3) -> bool {
        self.plane.on_surface(point)
    }

    open spec fn normal_at(&self, point: Vec3) -> Vec3 {
        self.plane.normal_at(point)
    }

    open spec fn material(&self) -> Material {
        self.plane.material
    }

    fn ray_intersects(&self, ray: &Ray) -> (res: Option<Vector3>) {
        match self.plane.ray_intersects(ray) {
            Some(p) => {
                let n: &Vector3 = &self.plane.coefficients;
                if side_of(&self.first, &self.second, &p, n) >= 0 && side_of(
                    &self.second,
                    &self.third,
                    &p,
                    n,
                ) >= 0 && side_of(&self.third, &self.first, &p, n) >= 0 {
                    Some(p)
                } else {
                    None
                }
            },
            None => None,
        }
    }

    fn normal(&self, point: &Vector3) -> (res: Vector3) {
        self.plane.normal(point)
    }

    fn get_material(&self) -> (res: &Material) {
        self.plane.get_material()
    }
}

/// A dot product is bounded by the bound of one factor times the sum of
/// absolute values of the other.
pub proof fn lemma_dot_bound(v: Vec3, c: Vec3, m: int)
    requires
        v.within(m),
    ensures
        abs(v.dot(c)) <= m * c.norm1(),
{
    lemma_product_bound(v.x, c.x, m, abs(c.x));
    lemma_product_bound(v.y, c.y, m, abs(c.y));
    lemma_product_bound(v.z, c.z, m, abs(c.z));
    assert(m * (abs(c.x) + abs(c.y) + abs(c.z)) == m * abs(c.x) + m * abs(c.y) + m * abs(c.z))
        by (nonlinear_arith);
}

/// A light: a disc of the given radius that faces whatever it lights.
#[derive(Copy, Clone, Debug, PartialEq, Eq, Structural)]
pub struct Light {
    pub position: Vector3,
    pub intensity: Color,
    pub radius: i64,
}

impl Light {
    /// The light lies in the world and its disc is no wider than the world.
    pub open spec fn wf(&self) -> bool {
        in_world(self.position@) && abs(self.radius as int) <= WORLD_MAX
    }

    /// Decides whether the light is well formed.
    pub fn is_valid(&self) -> (res: bool)
        ensures
            res == self.wf(),
    {
        is_in_world(&self.position) && -WORLD_MAX <= self.radius && self.radius <= WORLD_MAX
    }

    pub fn new(pos: Vector3, intensity: Color, radius: i64) -> (res: Self)
        ensures
            res.position == pos,
            res.intensity == intensity,
            res.radius == radius,
    {
        Light { position: pos, intensity, radius }
    }

    pub fn get_position(&self) -> (res: &Vector3)
        ensures
            *res == self.position,
    {
        &self.position
    }

    pub fn get_intensity(&self) -> (res: &Color)
        ensures
            *res == self.intensity,
    {
        &self.intensity
    }

    pub fn get_radius(&self) -> (res: i64)
        ensures
            res == self.radius,
    {
        self.radius
    }
}

/// Any of the surfaces that a scene can hold.
#[derive(Copy, Clone, Debug, PartialEq, Eq, Structural)]
pub enum Primitive {
    Sphere(Sphere),
    Plane(Plane),
    Triangle(Triangle),
}

impl Primitive {
    /// Decides whether the surface is well formed.
    pub fn is_valid(&self) -> (res: bool)
        ensures
            res == self.wf(),
    {
        match self {
            Primitive::Sphere(s) => s.is_valid(),
            Primitive::Plane(p) => p.is_valid(),
            Primitive::Triangle(t) => t.is_valid(),
        }
    }
}

impl SceneObject for Primitive {
    open spec fn wf(&self) -> bool {
        match self {
            Primitive::Sphere(s) => s.wf(),
            Primitive::Plane(p) => p.wf(),
            Primitive::Triangle(t) => t.wf(),
        }
    }

    open spec fn hit(&self, ray: RayView) -> Option<Vec3> {
        match self {
            Primitive::Sphere(s) => s.hit(ray),
            Primitive::Plane(p) => p.hit(ray),
            Primitive::Triangle(t) => t.hit(ray),
        }
    }

    open spec fn on_surface(&self, point: Vec3) -> bool {
        match self {
            Primitive::Sphere(s) => s.on_surface(point),
            Primitive::Plane(p) => p.on_surface(point),
            Primitive::Triangle(t) => t.on_surface(point),
        }
    }

    open spec fn normal_at(&self, point: Vec3) -> Vec3 {
        match self {
            Primitive::Sphere(s) => s.normal_at(point),
            Primitive::Plane(p) => p.normal_at(point),
            Primitive::Triangle(t) => t.normal_at(point),
        }
    }

    open spec fn material(&self) -> Material {
        match self {
            Primitive::Sphere(s) => s.material(),
            Primitive::Plane(p) => p.material(),
            Primitive::Triangle(t) => t.material(),
        }
    }

    fn ray_intersects(&self, ray: &Ray) -> (res: Option<Vector3>) {
        match self {
            Primitive::Sphere(s) => s.ray_intersects(ray),
            Primitive::Plane(p) => p.ray_intersects(ray),
            Primitive::Triangle(t) => t.ray_intersects(ray),
        }
    }

    fn normal(&self, point: &Vector3) -> (res: Vector3) {
        match self {
            Primitive::Sphere(s) => s.normal(point),
            Primitive::Plane(p) => p.normal(point),
            Primitive::Triangle(t) => t.normal(point),
        }
    }

    fn get_material(&self) -> (res: &Material) {
        match self {
            Primitive::Sphere(s) => s.get_material(),
            Primitive::Plane(p) => p.get_material(),
            Primitive::Triangle(t) => t.get_material(),
        }
    }
}

} // verus!
