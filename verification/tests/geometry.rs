use raytracer::basics::Vector3;
use raytracer::material::{Color, Material};
use raytracer::numeric::{int_sqrt, EPSILON, ONE};
use raytracer::raycast::Ray;
use raytracer::scene::Scene;
use raytracer::shapes::{
    advance, is_in_world, side_of, taxicab, Light, Plane, Primitive, SceneObject, Sphere, Triangle,
};

fn units(x: i64, y: i64, z: i64) -> Vector3 {
    Vector3::new(x * ONE, y * ONE, z * ONE)
}

fn red() -> Material {
    Material::new(Color::from((ONE, 0, 0)), 0)
}

fn dist2(a: Vector3, b: Vector3) -> i128 {
    let d = a - b;
    d.dot(d)
}

#[test]
fn test_sphere_intersect() {
    let ray = Ray::new(units(0, 0, 0), units(0, 0, 1));
    let sphere = Sphere::new(3 * ONE, units(0, 0, 10), red());
    let hit = sphere.ray_intersects(&ray).unwrap();
    let _ray2 = Ray::new(hit, hit - units(0, 0, 0));

    assert!(sphere.ray_intersects(&ray).is_some());
}

#[test]
fn test_plane_intersect() {
    let ray = Ray::new(units(0, 0, 0), units(0, 0, 1));
    let plane = Plane::new(units(-1, -1, 2), units(1, 0, 2), units(0, 1, 2), red());
    let _hit = plane.ray_intersects(&ray).unwrap();
}

#[test]
fn int_sqrt_rounds_down() {
    assert_eq!(int_sqrt(0), 0);
    assert_eq!(int_sqrt(1), 1);
    assert_eq!(int_sqrt(3), 1);
    assert_eq!(int_sqrt(4), 2);
    assert_eq!(int_sqrt(99), 9);
    assert_eq!(int_sqrt(100), 10);
    assert_eq!(int_sqrt(36_000_000_000_000_000_000_000_000), 6_000_000_000_000);
    assert_eq!(int_sqrt(u128::MAX), u64::MAX);
}

#[test]
fn vector_products() {
    let a = Vector3::new(1, 2, 3);
    let b = Vector3::new(-4, 5, 6);
    assert_eq!(a.dot(b), 24);
    assert_eq!(a.cross(b), Vector3::new(-3, -18, 13));
    assert_eq!(b.cross(a), Vector3::new(3, 18, -13));
    assert_eq!(a + b, Vector3::new(-3, 7, 9));
    assert_eq!(a - b, Vector3::new(5, -3, -3));
    assert_eq!(-a, Vector3::new(-1, -2, -3));
}

#[test]
fn vector_length_and_normalization() {
    let v = units(3, 4, 0);
    assert_eq!(v.mag(), 5 * ONE);
    assert_eq!(v.norm(), Vector3::new(600_000, 800_000, 0));
    assert_eq!(units(0, 0, -7).norm(), Vector3::new(0, 0, -ONE));
    assert_eq!(Vector3::new(1, 1, 1).mag(), 1);
    assert_eq!(Vector3::new(1, 1, 1).norm(), Vector3::new(ONE, ONE, ONE));
    assert_eq!(Vector3::dist_between(&units(1, 1, 1), &units(4, 5, 1)), 5 * ONE);
}

#[test]
fn vector_scaling_truncates_toward_zero() {
    let v = Vector3::new(7, -7, 10);
    assert_eq!(v.scale(1, 2), Vector3::new(3, -3, 5));
    assert_eq!(v.scale(-1, 2), Vector3::new(-3, 3, -5));
    assert_eq!(v * (ONE / 2), Vector3::new(3, -3, 5));
    assert_eq!(v / (2 * ONE), Vector3::new(3, -3, 5));
    assert_eq!(Vector3::from((1, 2, 3)), Vector3::new(1, 2, 3));
    assert_eq!(Vector3::from(Color::from((5, 6, 7))), Vector3::new(5, 6, 7));
}

#[test]
fn ray_new_normalizes_the_direction() {
    let ray = Ray::new(units(1, 2, 3), units(0, 0, 5));
    assert_eq!(*ray.get_origin(), units(1, 2, 3));
    assert_eq!(*ray.get_direction(), Vector3::new(0, 0, ONE));
}

#[test]
fn sphere_hit_through_center_is_the_near_point() {
    let ray = Ray::new(units(0, 0, 0), units(0, 0, 1));
    let sphere = Sphere::new(3 * ONE, units(0, 0, 10), red());
    assert_eq!(sphere.ray_intersects(&ray), Some(units(0, 0, 7)));
}

#[test]
fn sphere_hit_from_inside_is_the_far_point() {
    let ray = Ray::new(units(0, 0, 10), units(0, 0, 1));
    let sphere = Sphere::new(3 * ONE, units(0, 0, 10), red());
    assert_eq!(sphere.ray_intersects(&ray), Some(units(0, 0, 13)));
}

#[test]
fn sphere_behind_the_ray_is_missed() {
    let sphere = Sphere::new(3 * ONE, units(0, 0, 10), red());
    let away = Ray::new(units(0, 0, 0), units(0, 0, -1));
    assert_eq!(sphere.ray_intersects(&away), None);
    let sideways = Ray::new(units(0, 0, 0), units(1, 0, 0));
    assert_eq!(sphere.ray_intersects(&sideways), None);
}

#[test]
fn sphere_grazing_ray_is_missed() {
    let sphere = Sphere::new(3 * ONE, units(0, 0, 10), red());
    let tangent = Ray::new(units(3, 0, 0), units(0, 0, 1));
    assert_eq!(sphere.ray_intersects(&tangent), None);
    let outside = Ray::new(units(4, 0, 0), units(0, 0, 1));
    assert_eq!(sphere.ray_intersects(&outside), None);
}

#[test]
fn sphere_hit_lies_on_the_sphere() {
    let sphere = Sphere::new(2 * ONE, units(0, -8, 13), red());
    let ray = Ray::new(units(0, 0, 0), Vector3::new(30_000, -600_000, ONE));
    let hit = sphere.ray_intersects(&ray).unwrap();
    let d2 = dist2(hit, units(0, -8, 13));
    let r = (2 * ONE) as i128;
    let e = EPSILON as i128;
    assert!(d2 < (r + e) * (r + e));
    assert!(d2 > (r - e) * (r - e));
    let n = sphere.normal(&hit);
    assert_eq!(n, (hit - units(0, -8, 13)).norm());
}

#[test]
fn sphere_normal_points_outward() {
    let sphere = Sphere::new(3 * ONE, units(0, 0, 10), red());
    assert_eq!(sphere.normal(&units(0, 0, 7)), Vector3::new(0, 0, -ONE));
    assert_eq!(sphere.normal(&units(3, 0, 10)), Vector3::new(ONE, 0, 0));
    assert_eq!(*sphere.get_material(), red());
}

#[test]
fn plane_is_built_from_the_cross_product() {
    let plane = Plane::new(units(-1, -1, 2), units(1, 0, 2), units(0, 1, 2), red());
    assert_eq!(plane.coefficients, Vector3::new(0, 0, 3 * ONE * ONE));
    assert_eq!(plane.scalar, 6 * (ONE as i128) * (ONE as i128) * (ONE as i128));
    assert_eq!(plane.point_on, units(-1, -1, 2));
    assert_eq!(*plane.get_material(), red());
}

#[test]
fn plane_hit_and_normal() {
    let plane = Plane::new(units(-1, -1, 2), units(1, 0, 2), units(0, 1, 2), red());
    let ray = Ray::new(units(0, 0, 0), units(0, 0, 1));
    assert_eq!(plane.ray_intersects(&ray), Some(units(0, 0, 2)));
    assert_eq!(plane.normal(&units(0, 0, 2)), Vector3::new(0, 0, ONE));
    let slanted = Ray::new(units(0, 0, 0), units(3, 0, 4));
    assert_eq!(plane.ray_intersects(&slanted), Some(Vector3::new(1_500_000, 0, 2_000_000)));
}

#[test]
fn plane_behind_the_ray_is_missed() {
    let plane = Plane::new(units(-1, -1, 2), units(1, 0, 2), units(0, 1, 2), red());
    let ray = Ray::new(units(0, 0, 0), units(0, 0, -1));
    assert_eq!(plane.ray_intersects(&ray), None);
}

#[test]
fn plane_parallel_ray() {
    let plane = Plane::new(units(-1, -1, 2), units(1, 0, 2), units(0, 1, 2), red());
    let off = Ray::new(units(0, 0, 0), units(1, 0, 0));
    assert_eq!(plane.ray_intersects(&off), None);
    let within = Ray::new(units(5, 5, 2), units(1, 0, 0));
    assert_eq!(plane.ray_intersects(&within), Some(units(5, 5, 2)));
}

#[test]
fn plane_hit_outside_the_world_is_not_reported() {
    let plane = Plane::new(units(0, 0, 0), units(0, 0, 1), units(1, 0, 0), red());
    let shallow = Ray::new(units(0, 1, 0), Vector3::new(0, -100, ONE * 2));
    assert_eq!(plane.ray_intersects(&shallow), None);
    let steep = Ray::new(units(0, 1, 7), units(0, -1, 0));
    assert_eq!(plane.ray_intersects(&steep), Some(units(0, 0, 7)));
}

#[test]
fn advance_walks_along_the_ray() {
    let ray = Ray::new(units(1, 1, 1), units(0, 3, 4));
    assert_eq!(advance(&ray, 5, 1), Some(units(1, 4, 5)));
    assert_eq!(advance(&ray, 5, 2), Some(Vector3::new(ONE, 2_500_000, 3_000_000)));
    assert_eq!(advance(&ray, 1_000_000, 1), None);
    assert_eq!(advance(&ray, -5, 1), Some(units(1, -2, -3)));
}

#[test]
fn primitive_dispatches_to_its_surface() {
    let ray = Ray::new(units(0, 0, 0), units(0, 0, 1));
    let sphere = Primitive::Sphere(Sphere::new(3 * ONE, units(0, 0, 10), red()));
    let plane = Primitive::Plane(Plane::new(units(-1, -1, 2), units(1, 0, 2), units(0, 1, 2), red()));
    assert_eq!(sphere.ray_intersects(&ray), Some(units(0, 0, 7)));
    assert_eq!(plane.ray_intersects(&ray), Some(units(0, 0, 2)));
    assert_eq!(sphere.normal(&units(0, 0, 7)), Vector3::new(0, 0, -ONE));
    assert_eq!(plane.normal(&units(0, 0, 2)), Vector3::new(0, 0, ONE));
    assert_eq!(*sphere.get_material(), red());
}

#[test]
fn cast_finds_the_nearest_surface() {
    let mut scene = Scene::new(units(0, 0, 0));
    let far = Primitive::Sphere(Sphere::new(ONE, units(0, 0, 20), red()));
    let near = Primitive::Sphere(Sphere::new(ONE, units(0, 0, 10), red()));
    let wall = Primitive::Plane(Plane::new(units(-1, -1, 30), units(1, 0, 30), units(0, 1, 30), red()));
    scene.add(far);
    scene.add(near);
    scene.add(wall);
    let ray = Ray::new(units(0, 0, 0), units(0, 0, 1));
    let (point, object) = ray.cast(&scene).unwrap();
    assert_eq!(point, units(0, 0, 9));
    assert_eq!(*object, near);
    let back = Ray::new(units(0, 0, 0), units(0, 0, -1));
    assert!(back.cast(&scene).is_none());
}

#[test]
fn cast_prefers_the_surface_added_first_among_equally_near_ones() {
    let mut scene = Scene::new(units(0, 0, 0));
    let first = Primitive::Sphere(Sphere::new(ONE, units(0, 0, 10), red()));
    let second = Primitive::Sphere(Sphere::new(ONE, units(0, 0, 10), Material::new(Color::new(0, ONE, 0), 0)));
    scene.add(first);
    scene.add(second);
    let ray = Ray::new(units(0, 0, 0), units(0, 0, 1));
    let (_, object) = ray.cast(&scene).unwrap();
    assert_eq!(*object, first);
}

#[test]
fn cast_skips_the_surface_the_ray_starts_on() {
    let mut scene = Scene::new(units(0, 0, 0));
    let sphere = Primitive::Sphere(Sphere::new(3 * ONE, units(0, 0, 10), red()));
    let wall = Primitive::Plane(Plane::new(units(-1, -1, 30), units(1, 0, 30), units(0, 1, 30), red()));
    scene.add(sphere);
    scene.add(wall);
    // the sphere reports the point the ray starts on, which is too near to count
    let ray = Ray::new(units(0, 0, 13), units(0, 0, 1));
    assert_eq!(sphere.ray_intersects(&ray), Some(units(0, 0, 13)));
    let (point, object) = ray.cast(&scene).unwrap();
    assert_eq!(point, units(0, 0, 30));
    assert_eq!(*object, wall);
    // a point just within the tolerance is skipped, one just beyond it is not
    let close = Ray::new(Vector3::new(0, 0, 30 * ONE - 1_000), units(0, 0, 1));
    assert!(close.cast(&scene).is_none());
    let beyond = Ray::new(Vector3::new(0, 0, 30 * ONE - 1_001), units(0, 0, 1));
    assert_eq!(beyond.cast(&scene).unwrap().0, units(0, 0, 30));
}

#[test]
fn scene_keeps_what_was_added_in_order() {
    let mut scene = Scene::new(units(1, 2, 3));
    assert_eq!(scene.get_camera().position, units(1, 2, 3));
    assert!(scene.get_objects().is_empty());
    assert!(scene.get_lights().is_empty());
    let a = Primitive::Sphere(Sphere::new(ONE, units(0, 0, 10), red()));
    let b = Primitive::Plane(Plane::new(units(-1, -1, 2), units(1, 0, 2), units(0, 1, 2), red()));
    scene.add(a);
    scene.add(b);
    let light = Light::new(units(0, 4, 7), Color::new(ONE, ONE, ONE), 300_000);
    scene.add_light(light);
    assert_eq!(scene.get_objects().len(), 2);
    assert_eq!(scene.get_objects()[0], a);
    assert_eq!(scene.get_objects()[1], b);
    assert_eq!(scene.get_lights().len(), 1);
    assert_eq!(scene.get_lights()[0], light);
    assert_eq!(*light.get_position(), units(0, 4, 7));
    assert_eq!(*light.get_intensity(), Color::new(ONE, ONE, ONE));
    assert_eq!(light.get_radius(), 300_000);
}

#[test]
fn compound_assignment_follows_the_operators() {
    let mut v = Vector3::new(7, -7, 10);
    v += Vector3::new(1, 1, 1);
    assert_eq!(v, Vector3::new(8, -6, 11));
    v -= Vector3::new(8, 0, 1);
    assert_eq!(v, Vector3::new(0, -6, 10));
    v *= ONE / 2;
    assert_eq!(v, Vector3::new(0, -3, 5));
    v /= 2 * ONE;
    assert_eq!(v, Vector3::new(0, -1, 2));
}

#[test]
fn normalized_vectors_are_about_one_long() {
    let mut k: i64 = 1;
    while k < 200 {
        let v = Vector3::new(k * 37_003 - 2_000_000, 5_000_000 - k * 91_001, k * k * 13 + 1);
        let u = v.norm();
        let len2 = u.dot(u);
        let one = ONE as i128;
        assert!(len2 >= one * one - 4 * one);
        if v.mag() >= ONE {
            assert!(len2 < (one + 1) * (one + 1));
        }
        k += 1;
    }
}

#[test]
fn validity_is_decided_as_defined() {
    assert!(Sphere::new(3 * ONE, units(0, 0, 10), red()).is_valid());
    assert!(Sphere::new(0, units(0, 0, 10), red()).is_valid());
    assert!(!Sphere::new(-1, units(0, 0, 10), red()).is_valid());
    assert!(!Sphere::new(ONE, units(0, 0, 10_001), red()).is_valid());
    assert!(Sphere::new(10_000 * ONE, units(0, 0, 10_000), red()).is_valid());

    let plane = Plane::new(units(-1, -1, 2), units(1, 0, 2), units(0, 1, 2), red());
    assert!(plane.is_valid());
    let mut shifted = plane;
    shifted.scalar += 1;
    assert!(!shifted.is_valid());
    let mut flat = plane;
    flat.coefficients = Vector3::new(0, 0, 0);
    flat.scalar = 0;
    assert!(!flat.is_valid());
    let mut steep = plane;
    steep.coefficients = Vector3::new(0, 0, 1_000_000_000_000_001);
    steep.scalar = 2 * (ONE as i128) * 1_000_000_000_000_001;
    assert!(!steep.is_valid());

    assert!(Light::new(units(0, 4, 7), Color::new(ONE, ONE, ONE), 300_000).is_valid());
    assert!(Light::new(units(0, 4, 7), Color::new(ONE, ONE, ONE), -300_000).is_valid());
    assert!(!Light::new(units(0, 4, 10_001), Color::new(ONE, ONE, ONE), 300_000).is_valid());

    assert!(Ray::new(units(0, 0, 0), units(0, 0, 1)).is_valid());
    assert!(!Ray { origin: units(0, 0, 0), direction: units(0, 0, 0) }.is_valid());
    assert!(!Ray { origin: units(0, 0, 0), direction: units(0, 0, 2) }.is_valid());
    assert!(!Ray { origin: units(0, 0, 10_001), direction: units(0, 0, 1) }.is_valid());

    let mut scene = Scene::new(units(0, 0, 0));
    assert!(scene.is_valid());
    scene.add(Primitive::Plane(plane));
    scene.add_light(Light::new(units(0, 4, 7), Color::new(ONE, ONE, ONE), 300_000));
    assert!(scene.is_valid());
    scene.add(Primitive::Sphere(Sphere::new(-1, units(0, 0, 10), red())));
    assert!(!scene.is_valid());
    assert!(!Scene::new(units(0, 0, 10_001)).is_valid());
}

#[test]
fn plane_through_points_that_span_none() {
    let plane = Plane::through(units(-1, -1, 2), units(1, 0, 2), units(0, 1, 2), red());
    assert_eq!(plane, Some(Plane::new(units(-1, -1, 2), units(1, 0, 2), units(0, 1, 2), red())));
    // three points on one line
    assert_eq!(Plane::through(units(0, 0, 0), units(1, 1, 1), units(2, 2, 2), red()), None);
    // a point outside the world
    assert_eq!(Plane::through(units(0, 0, 0), units(1, 0, 0), units(0, 10_001, 0), red()), None);
    // edges so long that one unit of a coordinate exceeds the tolerance
    assert_eq!(Plane::through(units(0, 0, 0), units(40, 0, 0), units(0, 40, 0), red()), None);
    assert!(Plane::through(units(0, 0, 0), units(30, 0, 0), units(0, 30, 0), red()).is_some());
}

fn triangle() -> Triangle {
    Triangle::new(units(-2, 6, 8), units(2, 6, 8), units(0, 3, 8), red())
}

fn toward_z(x: i64, y: i64) -> Ray {
    Ray::new(Vector3::new(x, y, 0), units(0, 0, 1))
}

#[test]
fn triangle_is_hit_between_its_corners_only() {
    let t = triangle();
    assert_eq!(t.plane.coefficients, Vector3::new(0, 0, -12 * ONE * ONE));
    assert_eq!(t.ray_intersects(&toward_z(0, 5 * ONE)), Some(units(0, 5, 8)));
    assert_eq!(t.ray_intersects(&toward_z(ONE, 5 * ONE)), Some(units(1, 5, 8)));
    assert_eq!(t.ray_intersects(&toward_z(3 * ONE, 5 * ONE)), None);
    assert_eq!(t.ray_intersects(&toward_z(0, 2 * ONE)), None);
    assert_eq!(t.ray_intersects(&toward_z(-2 * ONE, 4 * ONE)), None);
    // the edges and the corners belong to the triangle
    assert_eq!(t.ray_intersects(&toward_z(0, 6 * ONE)), Some(units(0, 6, 8)));
    assert_eq!(t.ray_intersects(&toward_z(2 * ONE, 6 * ONE)), Some(units(2, 6, 8)));
    assert_eq!(t.ray_intersects(&toward_z(0, 3 * ONE)), Some(units(0, 3, 8)));
    assert_eq!(t.ray_intersects(&toward_z(0, 6 * ONE + 1)), None);
    assert_eq!(t.ray_intersects(&toward_z(0, 3 * ONE - 1)), None);
    // behind the ray
    assert_eq!(t.ray_intersects(&Ray::new(units(0, 5, 9), units(0, 0, 1))), None);
}

#[test]
fn triangle_has_the_normal_and_the_material_of_its_plane() {
    let t = triangle();
    assert_eq!(t.normal(&units(0, 5, 8)), Vector3::new(0, 0, -ONE));
    assert_eq!(*t.get_material(), red());
    let turned = Triangle::new(units(-2, 6, 8), units(0, 3, 8), units(2, 6, 8), red());
    assert_eq!(turned.normal(&units(0, 5, 8)), Vector3::new(0, 0, ONE));
    assert_eq!(turned.ray_intersects(&toward_z(0, 5 * ONE)), Some(units(0, 5, 8)));
    assert_eq!(turned.ray_intersects(&toward_z(3 * ONE, 5 * ONE)), None);
    let boxed = Primitive::Triangle(t);
    assert_eq!(boxed.ray_intersects(&toward_z(0, 5 * ONE)), Some(units(0, 5, 8)));
    assert_eq!(boxed.normal(&units(0, 5, 8)), Vector3::new(0, 0, -ONE));
    assert!(boxed.is_valid());
}

#[test]
fn triangle_through_corners_that_span_none() {
    assert_eq!(Triangle::through(units(-2, 6, 8), units(2, 6, 8), units(0, 3, 8), red()), Some(triangle()));
    assert_eq!(Triangle::through(units(0, 0, 0), units(1, 1, 1), units(2, 2, 2), red()), None);
    assert!(triangle().is_valid());
    let mut moved = triangle();
    moved.third = units(0, 2, 8);
    assert!(!moved.is_valid());
    let mut outside = triangle();
    outside.second = units(2, 6, 10_001);
    assert!(!outside.is_valid());
}

#[test]
fn sides_of_an_edge() {
    let n = Vector3::new(0, 0, 1);
    let a = Vector3::new(0, 0, 0);
    let b = Vector3::new(10, 0, 0);
    assert_eq!(side_of(&a, &b, &Vector3::new(3, 4, 0), &n), 40);
    assert_eq!(side_of(&a, &b, &Vector3::new(3, -4, 0), &n), -40);
    assert_eq!(side_of(&a, &b, &Vector3::new(30, 0, 0), &n), 0);
    assert_eq!(side_of(&b, &a, &Vector3::new(3, 4, 0), &n), -40);
    assert_eq!(taxicab(&Vector3::new(3, -4, 5)), 12);
    assert!(is_in_world(&units(10_000, -10_000, 0)));
    assert!(!is_in_world(&Vector3::new(10_000 * ONE + 1, 0, 0)));
}

#[test]
fn plane_hit_lies_on_the_plane() {
    let plane = Plane::new(
        Vector3::new(550_000, 0, 0),
        Vector3::new(550_000, 0, ONE),
        Vector3::new(450_000, ONE, 0),
        red(),
    );
    let mut k: i64 = 0;
    while k < 50 {
        let ray = Ray::new(units(-3, 2, 1), Vector3::new(ONE, k * 37_000 - 900_000, 13 * k));
        match plane.ray_intersects(&ray) {
            Some(hit) => {
                let rest = hit.dot(plane.coefficients) - plane.scalar;
                assert!(rest.abs() < 1_000_000_000_000_000);
                assert_eq!(plane.normal(&hit), plane.coefficients.norm());
            }
            None => {}
        }
        k += 1;
    }
    assert!(plane.ray_intersects(&Ray::new(units(-3, 2, 1), units(1, 0, 0))).is_some());
}
