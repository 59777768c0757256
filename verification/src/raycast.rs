//! Rays and the search for the surface that a ray meets first.

use crate::basics::{lemma_norm2_bounds, Vec3, Vector3};
use crate::numeric::{EPSILON, ONE, ORIGIN_MAX};
use crate::scene::{surfaces_wf, Scene};
use crate::shapes::{in_world, Primitive, SceneObject};
use vstd::prelude::*;

verus! {

/// What a `Ray` stands for: an origin and a direction over the integers.
pub struct RayView {
    pub origin: Vec3,
    pub direction: Vec3,
}

impl RayView {
    /// The point reached from the origin by the fraction `num / den` of the
    /// direction, each coordinate truncated.
    pub open spec fn travel(self, num: int, den: int) -> Vec3 {
        self.origin.plus(self.direction.scaled(num, den))
    }
}

/// A half-line: where it starts and which way it goes.
#[derive(Copy, Clone, Debug, PartialEq, Eq, Structural)]
pub struct Ray {
    pub origin: Vector3,
    pub direction: Vector3,
}

impl View for Ray {
    type V = RayView;

    open spec fn view(&self) -> RayView {
        RayView { origin: self.origin@, direction: self.direction@ }
    }
}

impl Ray {
    /// The origin is within reach of the world and the direction is a
    /// nonzero vector with no component longer than `ONE`.
    pub open spec fn wf(&self) -> bool {
        &&& self.origin@.within(ORIGIN_MAX as int)
        &&& self.direction@.within(ONE as int)
        &&& !self.direction@.is_zero()
    }

    /// Decides whether the ray is well formed.
    pub fn is_valid(&self) -> (res: bool)
        ensures
            res == self.wf(),
    {
        let o: &Vector3 = &self.origin;
        let d: &Vector3 = &self.direction;
        let m: i64 = ORIGIN_MAX;
        -m <= o.x && o.x <= m && -m <= o.y && o.y <= m && -m <= o.z && o.z <= m && -ONE <= d.x
            && d.x <= ONE && -ONE <= d.y && d.y <= ONE && -ONE <= d.z && d.z <= ONE && !(d.x == 0
            && d.y == 0 && d.z == 0)
    }

    /// Builds a ray; the direction is normalized.
    pub fn new(origin: Vector3, dir: Vector3) -> (res: Self)
        requires
            dir.wf(),
            !dir@.is_zero(),
        ensures
            res.origin == origin,
            res.direction@ == dir@.unit(),
            res.direction@.norm2() >= ONE * ONE - 4 * ONE,
            dir@.mag() >= ONE ==> res.direction@.norm2() < (ONE + 1) * (ONE + 1),
            origin@.within(ORIGIN_MAX as int) ==> res.wf(),
    {
        Ray { origin, direction: dir.norm() }
    }

    pub fn get_origin(&self) -> (res: &Vector3)
        ensures
            *res == self.origin,
    {
        &self.origin
    }

    pub fn get_direction(&self) -> (res: &Vector3)
        ensures
            *res == self.direction,
    {
        &self.direction
    }

    /// Finds the surface that the ray meets first: the one whose
    /// intersection lies nearest to the origin of the ray among those
    /// farther from it than the tolerance, and among equally near ones the
    /// one that was added to the scene first.
    pub fn cast<'a>(&self, scene: &'a Scene) -> (res: Option<(Vector3, &'a Primitive)>)
        requires
            self.wf(),
            surfaces_wf(scene.objects@),
        ensures
            match res {
                Some((p, object)) => {
                    &&& first_hit(scene.objects@, self@) matches Some((q, i))
                    &&& q == p@
                    &&& *object == scene.objects@[i]
                    &&& in_world(p@)
                    &&& object.wf()
                    &&& object.on_surface(p@)
                },
                None => first_hit(scene.objects@, self@) is None,
            },
    {
        let objects: &Vec<Primitive> = scene.get_objects();
        let mut best: Option<(Vector3, usize)> = None;
        let mut best_reach: i128 = 0;
        let mut i: usize = 0;
        while i < objects.len()
            invariant
                self.wf(),
                surfaces_wf(scene.objects@),
                *objects == scene.objects,
                0 <= i <= objects.len(),
                best is None ==> forall|j: int| 0 <= j < i ==> !qualifies(objects@, self@, j),
                best matches Some((p, k)) ==> {
                    &&& k < i
                    &&& qualifies(objects@, self@, k as int)
                    &&& objects@[k as int].hit(self@) == Some(p@)
                    &&& in_world(p@)
                    &&& objects@[k as int].on_surface(p@)
                    &&& best_reach == reach2(objects@, self@, k as int)
                    &&& forall|j: int|
                        0 <= j < i && #[trigger] qualifies(objects@, self@, j) ==> precedes(
                            objects@,
                            self@,
                            k as int,
                            j,
                        )
                },
            decreases objects.len() - i,
        {
            let found: Option<Vector3> = objects[i].ray_intersects(self);
            match found {
                Some(p) => {
                    let v: Vector3 = p - self.origin;
                    proof {
                        lemma_norm2_bounds(v@, 20_000_001_000);
                    }
                    let reach: i128 = v.dot(v);
                    let floor: i128 = EPSILON as i128 * EPSILON as i128;
                    let nearer: bool = match best {
                        Some(_) => reach < best_reach,
                        None => true,
                    };
                    if reach > floor && nearer {
                        best = Some((p, i));
                        best_reach = reach;
                    }
                },
                None => {},
            }
            i = i + 1;
        }
        match best {
            Some((p, k)) => {
                proof {
                    assert(is_nearest(objects@, self@, k as int));
                    lemma_nearest_unique(objects@, self@, k as int);
                }
                Some((p, &objects[k]))
            },
            None => {
                proof {
                    assert forall|j: int| !is_nearest(objects@, self@, j) by {
                        if is_nearest(objects@, self@, j) {
                            assert(qualifies(objects@, self@, j));
                        }
                    }
                }
                None
            },
        }
    }
}

/// The `i`-th surface is met by the ray, farther from the origin of the ray
/// than the tolerance.
pub open spec fn qualifies(objects: Seq<Primitive>, ray: RayView, i: int) -> bool {
    &&& 0 <= i < objects.len()
    &&& objects[i].hit(ray) matches Some(p)
    &&& p.dist2(ray.origin) > EPSILON * EPSILON
}

/// The squared distance from the origin of the ray to where it meets the
/// `i`-th surface.
pub open spec fn reach2(objects: Seq<Primitive>, ray: RayView, i: int) -> int {
    objects[i].hit(ray)->0.dist2(ray.origin)
}

/// The `i`-th surface is met before the `j`-th: nearer, or as near and
/// earlier in the scene.
pub open spec fn precedes(objects: Seq<Primitive>, ray: RayView, i: int, j: int) -> bool {
    reach2(objects, ray, i) < reach2(objects, ray, j) || (reach2(objects, ray, i) == reach2(
        objects,
        ray,
        j,
    ) && i <= j)
}

/// The `i`-th surface is the one that the ray meets first.
pub open spec fn is_nearest(objects: Seq<Primitive>, ray: RayView, i: int) -> bool {
    &&& qualifies(objects, ray, i)
    &&& forall|j: int| #[trigger] qualifies(objects, ray, j) ==> precedes(objects, ray, i, j)
}

/// The index of the surface that the ray meets first, if it meets any.
pub open spec fn nearest(objects: Seq<Primitive>, ray: RayView) -> Option<int> {
    if exists|i: int| is_nearest(objects, ray, i) {
        Some(choose|i: int| is_nearest(objects, ray, i))
    } else {
        None
    }
}

/// Where the ray meets a surface first, and the index of that surface.
pub open spec fn first_hit(objects: Seq<Primitive>, ray: RayView) -> Option<(Vec3, int)> {
    match nearest(objects, ray) {
        Some(i) => Some((objects[i].hit(ray)->0, i)),
        None => None,
    }
}

/// At most one surface is the one that the ray meets first.
pub proof fn lemma_nearest_unique(objects: Seq<Primitive>, ray: RayView, i: int)
    requires
        is_nearest(objects, ray, i),
    ensures
        nearest(objects, ray) == Some(i),
{
    let k = choose|k: int| is_nearest(objects, ray, k);
    assert(is_nearest(objects, ray, k));
    assert(precedes(objects, ray, i, k));
    assert(precedes(objects, ray, k, i));
}

} // verus!
