use raytracer::basics::Vector3;
use raytracer::material::{Color, Material};
use raytracer::numeric::ONE;
use raytracer::raycast::Ray;
use raytracer::scene::Scene;
use raytracer::shading::{
    basis_of, count_lit, illuminate, lift, light_on, mirror, offset_of, sample_is_clear, ColorRay,
};
use raytracer::shapes::{Light, Plane, Primitive, Sphere};

fn units(x: i64, y: i64, z: i64) -> Vector3 {
    Vector3::new(x * ONE, y * ONE, z * ONE)
}

fn white_light(position: Vector3, radius: i64) -> Light {
    Light::new(position, Color::new(ONE, ONE, ONE), radius)
}

/// A white floor at height zero, seen from straight above the point
/// (0, 0, 10), with a light of radius one five units above that point.
fn floor_scene() -> Scene {
    let mut scene = Scene::new(units(0, 2, 10));
    let white = Material::new(Color::new(ONE, ONE, ONE), 0);
    scene.add(Primitive::Plane(Plane::new(units(0, 0, 0), units(0, 0, 1), units(1, 0, 0), white)));
    scene.add_light(white_light(units(0, 5, 10), ONE));
    scene
}

fn looking_down() -> Ray {
    Ray::new(units(0, 2, 10), units(0, -1, 0))
}

/// A red mirror sphere in front of the origin, a green wall behind the
/// origin, and a small light at the origin.
fn mirror_scene() -> Scene {
    let mut scene = Scene::new(units(0, 0, 0));
    let red = Material::new(Color::new(ONE, 0, 0), ONE / 2);
    let green = Material::new(Color::new(0, ONE, 0), 0);
    scene.add(Primitive::Sphere(Sphere::new(3 * ONE, units(0, 0, 10), red)));
    scene.add(Primitive::Plane(Plane::new(units(-1, -1, -5), units(1, 0, -5), units(0, 1, -5), green)));
    scene.add_light(white_light(units(0, 0, 0), 300_000));
    scene
}

#[test]
fn a_ray_that_meets_nothing_sees_black() {
    let scene = floor_scene();
    let up = Ray::new(units(0, 2, 10), units(0, 1, 0));
    assert_eq!(ColorRay {}.cast(&scene, &up, 10), Color { r: 0, g: 0, b: 0 });
    let empty = Scene::new(units(0, 0, 0));
    assert_eq!(ColorRay {}.cast(&empty, &looking_down(), 10), Color { r: 0, g: 0, b: 0 });
}

#[test]
fn without_lights_a_surface_shows_the_ambient_light() {
    let mut scene = Scene::new(units(0, 2, 10));
    let tinted = Material::new(Color::new(ONE, ONE / 2, 0), 0);
    scene.add(Primitive::Plane(Plane::new(units(0, 0, 0), units(0, 0, 1), units(1, 0, 0), tinted)));
    assert_eq!(ColorRay {}.cast(&scene, &looking_down(), 10), Color { r: 200_000, g: 100_000, b: 0 });
}

#[test]
fn an_unoccluded_light_disc_lights_fully() {
    let scene = floor_scene();
    assert_eq!(ColorRay {}.cast(&scene, &looking_down(), 0), Color { r: ONE, g: ONE, b: ONE });
}

#[test]
fn a_half_occluded_light_disc_lights_less() {
    let full = ColorRay {}.cast(&floor_scene(), &looking_down(), 0);
    let mut scene = floor_scene();
    let opaque = Material::new(Color::new(0, 0, ONE), 0);
    // the plane x + y / 10 = 0.55 passes between the point and half of the disc
    scene.add(Primitive::Plane(Plane::new(
        Vector3::new(550_000, 0, 0),
        Vector3::new(550_000, 0, ONE),
        Vector3::new(450_000, ONE, 0),
        opaque,
    )));
    let half = ColorRay {}.cast(&scene, &looking_down(), 0);
    // ambient 0.2, and 50 of 100 samples of a light of intensity one
    assert_eq!(half, Color { r: 700_000, g: 700_000, b: 700_000 });
    assert!(half.r < full.r && half.g < full.g && half.b < full.b);
}

#[test]
fn a_fully_occluded_light_leaves_the_ambient_light() {
    let mut scene = floor_scene();
    let opaque = Material::new(Color::new(0, 0, ONE), 0);
    scene.add(Primitive::Plane(Plane::new(units(0, 3, 0), units(0, 3, 1), units(1, 3, 0), opaque)));
    let below = Ray::new(units(0, 2, 10), units(0, -1, 0));
    assert_eq!(ColorRay {}.cast(&scene, &below, 0), Color { r: 200_000, g: 200_000, b: 200_000 });
}

#[test]
fn samples_off_the_disc_do_not_count() {
    // a light of radius 0.3 holds 29 of the 100 cells of the grid
    let mut scene = Scene::new(units(0, 2, 10));
    let white = Material::new(Color::new(ONE, ONE, ONE), 0);
    scene.add(Primitive::Plane(Plane::new(units(0, 0, 0), units(0, 0, 1), units(1, 0, 0), white)));
    scene.add_light(white_light(units(0, 5, 10), 300_000));
    assert_eq!(ColorRay {}.cast(&scene, &looking_down(), 0), Color { r: 490_000, g: 490_000, b: 490_000 });
    // a light with a negative radius holds none
    let mut dark = Scene::new(units(0, 2, 10));
    dark.add(Primitive::Plane(Plane::new(units(0, 0, 0), units(0, 0, 1), units(1, 0, 0), white)));
    dark.add_light(white_light(units(0, 5, 10), -1));
    assert_eq!(ColorRay {}.cast(&dark, &looking_down(), 0), Color { r: 200_000, g: 200_000, b: 200_000 });
}

#[test]
fn a_light_behind_the_surface_adds_nothing() {
    let mut scene = Scene::new(units(0, 2, 10));
    let white = Material::new(Color::new(ONE, ONE, ONE), 0);
    scene.add(Primitive::Plane(Plane::new(units(0, 0, 0), units(0, 0, 1), units(1, 0, 0), white)));
    scene.add_light(white_light(units(0, -5, 10), ONE));
    assert_eq!(ColorRay {}.cast(&scene, &looking_down(), 0), Color { r: 200_000, g: 200_000, b: 200_000 });
}

#[test]
fn a_light_along_the_reference_axis_adds_nothing() {
    // the floor is the plane x = 0 here and the light stands on the x axis
    let mut scene = Scene::new(units(2, 0, 0));
    let white = Material::new(Color::new(ONE, ONE, ONE), 0);
    scene.add(Primitive::Plane(Plane::new(units(0, 0, 0), units(0, 1, 0), units(0, 0, 1), white)));
    scene.add_light(white_light(units(5, 0, 0), ONE));
    let ray = Ray::new(units(2, 0, 0), units(-1, 0, 0));
    assert_eq!(ColorRay {}.cast(&scene, &ray, 0), Color { r: 200_000, g: 200_000, b: 200_000 });
}

#[test]
fn two_lights_add_up_and_saturate() {
    let mut scene = Scene::new(units(0, 2, 10));
    let white = Material::new(Color::new(ONE, ONE, ONE), 0);
    scene.add(Primitive::Plane(Plane::new(units(0, 0, 0), units(0, 0, 1), units(1, 0, 0), white)));
    scene.add_light(Light::new(units(0, 5, 10), Color::new(300_000, 0, ONE), ONE));
    scene.add_light(Light::new(units(0, 7, 10), Color::new(300_000, 100_000, ONE), ONE));
    assert_eq!(ColorRay {}.cast(&scene, &looking_down(), 0), Color { r: 800_000, g: 300_000, b: ONE });
}

#[test]
fn at_depth_zero_no_reflection_is_followed() {
    let scene = mirror_scene();
    let ray = Ray::new(units(0, 0, 0), units(0, 0, 1));
    // ambient 0.2 and 29 samples of 100: 0.49, on red, kept to one half
    assert_eq!(ColorRay {}.cast(&scene, &ray, 0), Color { r: 245_000, g: 0, b: 0 });
    assert_eq!(ColorRay {}.cast(&scene, &ray, -3), Color { r: 245_000, g: 0, b: 0 });
}

#[test]
fn a_mirror_shows_what_lies_behind_the_viewer() {
    let scene = mirror_scene();
    let ray = Ray::new(units(0, 0, 0), units(0, 0, 1));
    // one half of the red of the sphere and one half of the green of the wall
    assert_eq!(ColorRay {}.cast(&scene, &ray, 1), Color { r: 245_000, g: 245_000, b: 0 });
    assert_eq!(ColorRay {}.cast(&scene, &ray, 10), Color { r: 245_000, g: 245_000, b: 0 });
}

#[test]
fn shading_stays_in_range_between_facing_mirrors() {
    let mut scene = Scene::new(units(0, 0, 0));
    let silver = Material::new(Color::new(ONE, ONE, ONE), 900_000);
    scene.add(Primitive::Plane(Plane::new(units(-1, -1, 5), units(1, 0, 5), units(0, 1, 5), silver)));
    scene.add(Primitive::Plane(Plane::new(units(-1, -1, -5), units(1, 0, -5), units(0, 1, -5), silver)));
    scene.add_light(white_light(units(0, 1, 0), ONE));
    let ray = Ray::new(units(0, 0, 0), units(0, 0, 1));
    let mut depth: isize = 0;
    while depth <= 6 {
        let c = ColorRay {}.cast(&scene, &ray, depth);
        assert!(0 <= c.r && c.r <= ONE && 0 <= c.g && c.g <= ONE && 0 <= c.b && c.b <= ONE);
        depth += 1;
    }
}

#[test]
fn reflectivity_outside_its_range_is_clamped() {
    let mut scene = Scene::new(units(0, 2, 10));
    let odd = Material::new(Color::new(ONE, ONE, ONE), -ONE);
    scene.add(Primitive::Plane(Plane::new(units(0, 0, 0), units(0, 0, 1), units(1, 0, 0), odd)));
    assert_eq!(ColorRay {}.cast(&scene, &looking_down(), 3), Color { r: 200_000, g: 200_000, b: 200_000 });
    let mut scene = Scene::new(units(0, 2, 10));
    let all = Material::new(Color::new(ONE, ONE, ONE), 2 * ONE);
    scene.add(Primitive::Plane(Plane::new(units(0, 0, 0), units(0, 0, 1), units(1, 0, 0), all)));
    assert_eq!(ColorRay {}.cast(&scene, &looking_down(), 3), Color { r: 0, g: 0, b: 0 });
}

/// The floor scene with the plane x + y / 10 = 0.55 between the point
/// (0, 0, 10) and half of the light.
fn half_shaded_scene() -> Scene {
    let mut scene = floor_scene();
    let opaque = Material::new(Color::new(0, 0, ONE), 0);
    scene.add(Primitive::Plane(Plane::new(
        Vector3::new(550_000, 0, 0),
        Vector3::new(550_000, 0, ONE),
        Vector3::new(450_000, ONE, 0),
        opaque,
    )));
    scene
}

#[test]
fn shadow_rays_start_off_the_surface() {
    assert_eq!(lift(units(0, 0, 10), Vector3::new(0, ONE, 0)), Vector3::new(0, 1_000, 10 * ONE));
    assert_eq!(lift(units(1, 2, 3), Vector3::new(-600_000, 0, 800_000)), Vector3::new(999_400, 2 * ONE, 3_000_800));
    assert_eq!(lift(units(1, 2, 3), Vector3::new(999, -999, 0)), units(1, 2, 3));
}

#[test]
fn the_basis_of_a_disc_is_perpendicular_to_the_way_to_the_light() {
    assert_eq!(basis_of(units(0, 5, 0)), Some((Vector3::new(0, 0, ONE), Vector3::new(-ONE, 0, 0))));
    assert_eq!(basis_of(units(0, 0, -7)), Some((Vector3::new(0, ONE, 0), Vector3::new(-ONE, 0, 0))));
    assert_eq!(basis_of(units(5, 0, 0)), None);
    assert_eq!(basis_of(units(-5, 0, 0)), None);
    assert_eq!(basis_of(units(0, 0, 0)), None);
    let (d1, d2) = basis_of(units(3, 4, 12)).unwrap();
    let tilt = units(3, 4, 12).norm();
    assert!(d1.dot(tilt).abs() < 2 * ONE as i128);
    assert!(d2.dot(tilt).abs() < 2 * ONE as i128);
    assert!(d1.dot(d2).abs() < 2 * ONE as i128);
}

#[test]
fn the_grid_runs_from_minus_a_half_to_four_tenths() {
    let basis = (Vector3::new(0, 0, ONE), Vector3::new(-ONE, 0, 0));
    assert_eq!(offset_of(&basis, 0), Vector3::new(500_000, 0, -500_000));
    assert_eq!(offset_of(&basis, 9), Vector3::new(-400_000, 0, -500_000));
    assert_eq!(offset_of(&basis, 10), Vector3::new(500_000, 0, -400_000));
    assert_eq!(offset_of(&basis, 55), Vector3::new(0, 0, 0));
    assert_eq!(offset_of(&basis, 99), Vector3::new(-400_000, 0, 400_000));
    let slanted = (Vector3::new(333_333, -666_667, 7), Vector3::new(0, 0, 0));
    assert_eq!(offset_of(&slanted, 25), Vector3::new(-99_999, 200_000, -2));
}

#[test]
fn samples_are_counted_cell_by_cell() {
    let p = units(0, 0, 10);
    let n = Vector3::new(0, ONE, 0);
    let basis = (Vector3::new(0, 0, ONE), Vector3::new(-ONE, 0, 0));
    let open = floor_scene();
    let light = open.get_lights()[0];
    assert_eq!(count_lit(&open, p, n, &light, &basis), 100);
    let shaded = half_shaded_scene();
    assert_eq!(count_lit(&shaded, p, n, &light, &basis), 50);
    let start = lift(p, n);
    // column 4 lies behind the plane, column 5 does not
    assert!(!sample_is_clear(&shaded, p, n, start, &light, offset_of(&basis, 4)));
    assert!(sample_is_clear(&shaded, p, n, start, &light, offset_of(&basis, 5)));
    assert!(sample_is_clear(&open, p, n, start, &light, offset_of(&basis, 4)));
    let small = white_light(units(0, 5, 10), 300_000);
    assert_eq!(count_lit(&open, p, n, &small, &basis), 29);
    let point = white_light(units(0, 5, 10), 0);
    assert_eq!(count_lit(&open, p, n, &point, &basis), 1);
}

#[test]
fn a_light_sheds_the_average_of_its_samples() {
    let p = units(0, 0, 10);
    let n = Vector3::new(0, ONE, 0);
    let shaded = half_shaded_scene();
    let light = shaded.get_lights()[0];
    assert_eq!(light_on(&shaded, &light, p, n), Color { r: 500_000, g: 500_000, b: 500_000 });
    assert_eq!(illuminate(&shaded, p, n), Color { r: 700_000, g: 700_000, b: 700_000 });
    // seen at a slant of 3 : 4 : 0 the light counts for four fifths
    let slanted = Vector3::new(600_000, 800_000, 0);
    assert_eq!(light_on(&floor_scene(), &light, p, slanted), Color { r: 800_000, g: 800_000, b: 800_000 });
    let tinted = Light::new(units(0, 5, 10), Color::new(ONE, 500_000, 3), ONE);
    assert_eq!(light_on(&shaded, &tinted, p, n), Color { r: 500_000, g: 250_000, b: 1 });
}

#[test]
fn a_ray_is_mirrored_about_the_normal() {
    let p = units(0, 0, 7);
    let back = mirror(p, Vector3::new(0, 0, ONE), Vector3::new(0, 0, -ONE)).unwrap();
    assert_eq!((back.origin, back.direction), (p, Vector3::new(0, 0, -ONE)));
    let slanted = mirror(p, Vector3::new(600_000, 0, 800_000), Vector3::new(0, 0, -ONE)).unwrap();
    assert_eq!((slanted.origin, slanted.direction), (p, Vector3::new(600_000, 0, -800_000)));
    let along = mirror(p, Vector3::new(ONE, 0, 0), Vector3::new(0, 0, -ONE)).unwrap();
    assert_eq!(along.direction, Vector3::new(ONE, 0, 0));
    // a direction of two units of the scale is turned into nothing by rounding
    assert_eq!(mirror(p, Vector3::new(0, 0, 2), Vector3::new(0, 0, 707_107)), None);
}

#[test]
fn a_surface_beyond_the_light_does_not_shade() {
    let mut scene = floor_scene();
    let opaque = Material::new(Color::new(0, 0, ONE), 0);
    scene.add(Primitive::Plane(Plane::new(units(0, 7, 0), units(0, 7, 1), units(1, 7, 0), opaque)));
    assert_eq!(ColorRay {}.cast(&scene, &looking_down(), 0), Color { r: ONE, g: ONE, b: ONE });
    let p = units(0, 0, 10);
    let n = Vector3::new(0, ONE, 0);
    let basis = (Vector3::new(0, 0, ONE), Vector3::new(-ONE, 0, 0));
    assert_eq!(count_lit(&scene, p, n, &scene.get_lights()[0], &basis), 100);
}

#[test]
fn no_more_reflections_are_followed_than_the_depth_allows() {
    let scene = mirror_scene();
    let ray = Ray::new(units(0, 0, 0), units(0, 0, 1));
    assert_eq!(ColorRay {}.trace(&scene, &ray, -1), (Color { r: 245_000, g: 0, b: 0 }, 0));
    assert_eq!(ColorRay {}.trace(&scene, &ray, 0), (Color { r: 245_000, g: 0, b: 0 }, 0));
    // the wall behind the viewer does not reflect, so one reflection is the end
    assert_eq!(ColorRay {}.trace(&scene, &ray, 1), (Color { r: 245_000, g: 245_000, b: 0 }, 1));
    assert_eq!(ColorRay {}.trace(&scene, &ray, 10), (Color { r: 245_000, g: 245_000, b: 0 }, 1));
    // between two facing mirrors every allowed reflection is followed
    let mut hall = Scene::new(units(0, 0, 0));
    let silver = Material::new(Color::new(ONE, ONE, ONE), 900_000);
    hall.add(Primitive::Plane(Plane::new(units(-1, -1, 5), units(1, 0, 5), units(0, 1, 5), silver)));
    hall.add(Primitive::Plane(Plane::new(units(-1, -1, -5), units(1, 0, -5), units(0, 1, -5), silver)));
    let mut depth: isize = 0;
    while depth <= 12 {
        let (color, followed) = ColorRay {}.trace(&hall, &ray, depth);
        assert_eq!(followed, depth as usize);
        assert_eq!(color, ColorRay {}.cast(&hall, &ray, depth));
        depth += 1;
    }
    // ambient light alone: 0.2 * 0.1 at each mirror, nine tenths of the next
    assert_eq!(ColorRay {}.cast(&hall, &ray, 0), Color { r: 20_000, g: 20_000, b: 20_000 });
    assert_eq!(ColorRay {}.cast(&hall, &ray, 1), Color { r: 38_000, g: 38_000, b: 38_000 });
    assert_eq!(ColorRay {}.cast(&hall, &ray, 2), Color { r: 54_200, g: 54_200, b: 54_200 });
}
