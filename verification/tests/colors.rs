use raytracer::basics::Vector3;
use raytracer::material::{clamp_channel, Color, Material};
use raytracer::numeric::ONE;

#[test]
fn color_new_clamps_each_channel() {
    let c = Color::new(-5, ONE / 2, 3 * ONE);
    assert_eq!(c, Color { r: 0, g: ONE / 2, b: ONE });
    assert_eq!(Color::default(), Color { r: 0, g: 0, b: 0 });
    assert_eq!(Color::from((-5, 7, 3 * ONE)), Color { r: -5, g: 7, b: 3 * ONE });
    assert_eq!(Color::from(Vector3::new(-5, 7, 3 * ONE)), Color { r: 0, g: 7, b: ONE });
    assert_eq!(clamp_channel(-1), 0);
    assert_eq!(clamp_channel(ONE as i128 + 1), ONE);
    assert_eq!(clamp_channel(17), 17);
}

#[test]
fn color_sum_saturates() {
    let a = Color::new(600_000, 100_000, 0);
    let b = Color::new(600_000, 200_000, 0);
    assert_eq!(a + b, Color { r: ONE, g: 300_000, b: 0 });
    assert_eq!(a.plus(b), Color { r: ONE, g: 300_000, b: 0 });
}

#[test]
fn color_product_is_channelwise() {
    let a = Color::new(500_000, ONE, 250_000);
    let b = Color::new(500_000, 300_000, ONE);
    assert_eq!(a * b, Color { r: 250_000, g: 300_000, b: 250_000 });
    assert_eq!(a.times(b), Color { r: 250_000, g: 300_000, b: 250_000 });
    // the right-hand side is clamped, the left-hand side is not
    let wide = Color::from((2 * ONE, 0, 0));
    assert_eq!(a * wide, Color { r: 500_000, g: 0, b: 0 });
    assert_eq!(wide * a, Color { r: ONE, g: 0, b: 0 });
}

#[test]
fn color_scaling_clamps_the_factor() {
    let a = Color::new(500_000, ONE, 3);
    assert_eq!(a * 700_000, Color { r: 350_000, g: 700_000, b: 2 });
    assert_eq!(a * (5 * ONE), a);
    assert_eq!(a * -1, Color { r: 0, g: 0, b: 0 });
    assert_eq!(a.scaled(700_000), Color { r: 350_000, g: 700_000, b: 2 });
}

#[test]
fn color_levels_round_down() {
    assert_eq!(Color::new(ONE, 0, ONE / 2).levels(), (255, 0, 127));
    assert_eq!(Color::new(999_999, 3_921, 3_922).levels(), (254, 0, 1));
    assert_eq!(Color::from((2 * ONE, -ONE, 200_000)).levels(), (255, 0, 51));
}

#[test]
fn material_keeps_its_parts() {
    let m = Material::new(Color::new(ONE, 0, 0), 300_000);
    assert_eq!(*m.get_color(), Color { r: ONE, g: 0, b: 0 });
    assert_eq!(m.get_reflectivity(), 300_000);
}

#[test]
fn color_compound_assignment_follows_the_operators() {
    let mut c = Color::new(600_000, 100_000, 0);
    c += Color::new(600_000, 200_000, 0);
    assert_eq!(c, Color { r: ONE, g: 300_000, b: 0 });
    c *= Color::new(500_000, ONE, ONE);
    assert_eq!(c, Color { r: 500_000, g: 300_000, b: 0 });
}
