//! The color seen along a ray: ambient light, soft-shadowed direct light
//! from every light of the scene, and mirror reflection to a bounded depth.

use crate::basics::{
    lemma_cross_bound, lemma_norm2_bounds, lemma_scaled_within, Vec3, Vector3,
};
use crate::material::{
    clamp_channel, color_product, color_scaled, color_sum, in_unit_range, saturated, unit_clamp,
    Color, Material,
};
use crate::numeric::{
    lemma_product_bound, lemma_quot, lemma_quot_monotone, quot, EPSILON, ONE, ORIGIN_MAX,
};
use crate::raycast::{first_hit, Ray, RayView};
use crate::scene::{surfaces_wf, Scene};
use crate::shapes::{in_world, Light, Primitive, SceneObject};
use vstd::prelude::*;

verus! {

/// The ambient light, two tenths on each channel.
pub const AMBIENT: i64 = 200_000;

/// The number of samples taken of each light: a grid of ten by ten.
pub const SAMPLES: i64 = 100;

/// The color black.
pub open spec fn black() -> Vec3 {
    Vec3 { x: 0, y: 0, z: 0 }
}

/// The ambient light as a color.
pub open spec fn ambient() -> Vec3 {
    Vec3 { x: AMBIENT as int, y: AMBIENT as int, z: AMBIENT as int }
}

/// The axis that the basis of a light's disc starts from.
pub open spec fn reference_axis() -> Vec3 {
    Vec3 { x: ONE as int, y: 0, z: 0 }
}

/// Where shadow rays start: the point moved off its surface by the
/// tolerance, along the normal.
pub open spec fn lifted(p: Vec3, n: Vec3) -> Vec3 {
    p.plus(n.scaled(EPSILON as int, ONE as int))
}

/// Two vectors of length about `ONE`, perpendicular to the direction to the
/// light and to each other. There is none where the light lies at the point
/// itself or straight along the reference axis.
pub open spec fn disc_basis(to_light: Vec3) -> Option<(Vec3, Vec3)> {
    let c1 = reference_axis().cross(to_light);
    if c1.is_zero() {
        None
    } else {
        let c2 = c1.unit().cross(to_light);
        if c2.is_zero() {
            None
        } else {
            Some((c1.unit(), c2.unit()))
        }
    }
}

/// The offset of a cell of the grid from the center of the light: cells are
/// numbered row by row, and a row and a column of the grid stand for the
/// offsets -0.5, -0.4, ... 0.4 along the two vectors of the basis.
pub open spec fn cell_offset(basis: (Vec3, Vec3), cell: int) -> Vec3 {
    basis.0.scaled(cell / 10 - 5, 10).plus(basis.1.scaled(cell % 10 - 5, 10))
}

/// The offset stays on the disc of the light.
pub open spec fn in_disc(light: Light, offset: Vec3) -> bool {
    light.radius >= 0 && offset.norm2() <= light.radius * light.radius
}

/// Nothing lies between the point `p` and the sample of the light at the
/// given offset: the shadow ray meets no surface, or meets the first one
/// farther from `p` than the light is.
pub open spec fn sample_clear(
    objects: Seq<Primitive>,
    p: Vec3,
    n: Vec3,
    light: Light,
    offset: Vec3,
) -> bool {
    let toward = light.position@.minus(p).plus(offset);
    if toward.is_zero() {
        true
    } else {
        match first_hit(objects, RayView { origin: lifted(p, n), direction: toward.unit() }) {
            None => true,
            Some((h, i)) => h.dist2(p) > light.position@.dist2(p),
        }
    }
}

/// The cell of the grid lies on the disc of the light and is seen from `p`.
pub open spec fn sample_lit(
    objects: Seq<Primitive>,
    p: Vec3,
    n: Vec3,
    light: Light,
    basis: (Vec3, Vec3),
    cell: int,
) -> bool {
    in_disc(light, cell_offset(basis, cell)) && sample_clear(
        objects,
        p,
        n,
        light,
        cell_offset(basis, cell),
    )
}

/// How many of the first `cells` cells of the grid light the point `p`.
pub open spec fn lit_count(
    objects: Seq<Primitive>,
    p: Vec3,
    n: Vec3,
    light: Light,
    basis: (Vec3, Vec3),
    cells: int,
) -> int
    decreases cells,
{
    if cells <= 0 {
        0
    } else {
        lit_count(objects, p, n, light, basis, cells - 1) + if sample_lit(
            objects,
            p,
            n,
            light,
            basis,
            cells - 1,
        ) {
            1int
        } else {
            0int
        }
    }
}

/// Occlusion can only take light away: where every sample that lights the
/// point among one set of surfaces also lights it among another, no fewer
/// samples light it among the other.
pub proof fn lemma_lit_count_monotone(
    shaded: Seq<Primitive>,
    open: Seq<Primitive>,
    p: Vec3,
    n: Vec3,
    light: Light,
    basis: (Vec3, Vec3),
    cells: int,
)
    requires
        forall|cell: int|
            0 <= cell < cells && #[trigger] sample_lit(shaded, p, n, light, basis, cell)
                ==> sample_lit(open, p, n, light, basis, cell),
    ensures
        0 <= lit_count(shaded, p, n, light, basis, cells) <= lit_count(
            open,
            p,
            n,
            light,
            basis,
            cells,
        ),
        lit_count(open, p, n, light, basis, cells) <= cells || cells < 0,
    decreases cells,
{
    if cells > 0 {
        lemma_lit_count_monotone(shaded, open, p, n, light, basis, cells - 1);
    }
}

/// The cosine of the angle between the normal and the direction to the
/// light, as a fixed-point number, or zero where the light is behind.
pub open spec fn facing(to_light: Vec3, n: Vec3) -> int {
    let m = quot(to_light.unit().dot(n), ONE as int);
    if m > 0 {
        m
    } else {
        0
    }
}

/// What a light adds where `count` of its hundred samples arrive, each
/// with the given value: the sum over the samples, divided by a hundred and
/// saturated.
pub open spec fn light_term(value: Vec3, count: int) -> Vec3 {
    saturated(value.scaled(count, SAMPLES as int))
}

/// The direct light that one light sheds on the point `p` with normal `n`.
pub open spec fn light_contribution(objects: Seq<Primitive>, light: Light, p: Vec3, n: Vec3) -> Vec3 {
    let to_light = light.position@.minus(p);
    match disc_basis(to_light) {
        None => black(),
        Some(basis) => light_term(
            light.intensity@.scaled(facing(to_light, n), ONE as int),
            lit_count(objects, p, n, light, basis, SAMPLES as int),
        ),
    }
}

/// The ambient light and the direct light of the first `k` lights, summed
/// with saturation.
pub open spec fn illumination(
    objects: Seq<Primitive>,
    lights: Seq<Light>,
    p: Vec3,
    n: Vec3,
    k: int,
) -> Vec3
    decreases k,
{
    if k <= 0 {
        ambient()
    } else {
        color_sum(
            illumination(objects, lights, p, n, k - 1),
            light_contribution(objects, lights[k - 1], p, n),
        )
    }
}

/// The direction `d` mirrored at a surface with normal `n`:
/// `d - 2 (d . n) n`.
pub open spec fn reflected(d: Vec3, n: Vec3) -> Vec3 {
    d.minus(n.scaled(2 * d.dot(n), ONE * ONE))
}

/// The ray that leaves `p` in the mirrored direction, if that direction is
/// not the zero vector.
pub open spec fn bounce(p: Vec3, d: Vec3, n: Vec3) -> Option<RayView> {
    let r = reflected(d, n);
    if r.is_zero() {
        None
    } else {
        Some(RayView { origin: p, direction: r.unit() })
    }
}

/// The color of a surface under the given illumination and with the given
/// color coming in along the mirrored ray:
/// `color * illumination * (1 - reflectivity) + incoming * reflectivity`.
pub open spec fn surface_color(material: Material, light: Vec3, incoming: Vec3) -> Vec3 {
    color_sum(
        color_scaled(color_product(material.color@, light), ONE - material.reflectivity),
        color_scaled(incoming, material.reflectivity as int),
    )
}

/// The ray's next reflection: the mirrored ray at the surface that the ray
/// meets first, where the depth allows one and the surface reflects.
pub open spec fn next_bounce(objects: Seq<Primitive>, ray: RayView, depth: int) -> Option<RayView> {
    match first_hit(objects, ray) {
        None => None,
        Some((p, i)) => if depth > 0 && objects[i].material().reflectivity > 0 {
            bounce(p, ray.direction, objects[i].normal_at(p))
        } else {
            None
        },
    }
}

/// The color seen along the ray, following reflections `depth` deep at
/// most.
pub open spec fn radiance(
    objects: Seq<Primitive>,
    lights: Seq<Light>,
    ray: RayView,
    depth: int,
) -> Vec3
    decreases depth,
{
    match first_hit(objects, ray) {
        None => black(),
        Some((p, i)) => {
            let n = objects[i].normal_at(p);
            let incoming = match next_bounce(objects, ray, depth) {
                Some(r) => if depth > 0 {
                    radiance(objects, lights, r, depth - 1)
                } else {
                    black()
                },
                None => black(),
            };
            surface_color(
                objects[i].material(),
                illumination(objects, lights, p, n, lights.len() as int),
                incoming,
            )
        },
    }
}

/// The number of reflections that are followed to find the color seen along
/// the ray.
pub open spec fn reflections(objects: Seq<Primitive>, ray: RayView, depth: int) -> nat
    decreases depth,
{
    match next_bounce(objects, ray, depth) {
        Some(r) => if depth > 0 {
            1 + reflections(objects, r, depth - 1)
        } else {
            0
        },
        None => 0,
    }
}

/// At a depth of `depth`, at most `depth` reflections are followed; none
/// where the depth is zero or less.
pub proof fn lemma_reflections_bounded(objects: Seq<Primitive>, ray: RayView, depth: int)
    ensures
        depth <= 0 ==> reflections(objects, ray, depth) == 0,
        depth >= 0 ==> reflections(objects, ray, depth) <= depth,
    decreases depth,
{
    if depth > 0 {
        match next_bounce(objects, ray, depth) {
            Some(r) => {
                lemma_reflections_bounded(objects, r, depth - 1);
            },
            None => {},
        }
    }
}

/// Every color that shading returns has its channels between zero and
/// `ONE`.
pub proof fn lemma_radiance_in_range(
    objects: Seq<Primitive>,
    lights: Seq<Light>,
    ray: RayView,
    depth: int,
)
    ensures
        in_unit_range(radiance(objects, lights, ray, depth)),
{
}

/// A ray that meets no surface sees black.
pub proof fn lemma_miss_is_black(
    objects: Seq<Primitive>,
    lights: Seq<Light>,
    ray: RayView,
    depth: int,
)
    requires
        first_hit(objects, ray) is None,
    ensures
        radiance(objects, lights, ray, depth) == black(),
{
}

/// Whatever the lights are, the illumination of a point is in range and
/// holds at least the ambient light.
pub proof fn lemma_illumination_holds_ambient(
    objects: Seq<Primitive>,
    lights: Seq<Light>,
    p: Vec3,
    n: Vec3,
    k: int,
)
    ensures
        in_unit_range(illumination(objects, lights, p, n, k)),
        illumination(objects, lights, p, n, k).x >= AMBIENT,
        illumination(objects, lights, p, n, k).y >= AMBIENT,
        illumination(objects, lights, p, n, k).z >= AMBIENT,
    decreases k,
{
    if k > 0 {
        lemma_illumination_holds_ambient(objects, lights, p, n, k - 1);
    }
}

/// What a channel of a surface shows of the ambient light alone: the color
/// of the surface, lit by the ambient light, less what the surface gives to
/// its mirror image.
pub open spec fn ambient_share(color: int, reflectivity: int) -> int {
    unit_clamp(
        quot(quot(color * AMBIENT, ONE as int) * unit_clamp(ONE - reflectivity), ONE as int),
    )
}

/// A ray that meets a surface sees, on every channel on which the color of
/// the surface is not negative, at least what the surface shows of the
/// ambient light.
pub proof fn lemma_hit_shows_ambient(
    objects: Seq<Primitive>,
    lights: Seq<Light>,
    ray: RayView,
    depth: int,
)
    requires
        first_hit(objects, ray) is Some,
    ensures
        ({
            let found = first_hit(objects, ray)->0;
            let material = objects[found.1].material();
            let seen = radiance(objects, lights, ray, depth);
            &&& material.color.r >= 0 ==> seen.x >= ambient_share(
                material.color.r as int,
                material.reflectivity as int,
            )
            &&& material.color.g >= 0 ==> seen.y >= ambient_share(
                material.color.g as int,
                material.reflectivity as int,
            )
            &&& material.color.b >= 0 ==> seen.z >= ambient_share(
                material.color.b as int,
                material.reflectivity as int,
            )
        }),
{
    let (p, i) = first_hit(objects, ray)->0;
    let material = objects[i].material();
    let n = objects[i].normal_at(p);
    let light = illumination(objects, lights, p, n, lights.len() as int);
    let incoming = match next_bounce(objects, ray, depth) {
        Some(r) => if depth > 0 {
            radiance(objects, lights, r, depth - 1)
        } else {
            black()
        },
        None => black(),
    };
    lemma_illumination_holds_ambient(objects, lights, p, n, lights.len() as int);
    assert(in_unit_range(incoming));
    let k = material.reflectivity as int;
    lemma_channel_shows_ambient(material.color.r as int, k, light.x, incoming.x);
    lemma_channel_shows_ambient(material.color.g as int, k, light.y, incoming.y);
    lemma_channel_shows_ambient(material.color.b as int, k, light.z, incoming.z);
}

proof fn lemma_channel_shows_ambient(color: int, reflectivity: int, light: int, incoming: int)
    requires
        AMBIENT <= light <= ONE,
        0 <= incoming <= ONE,
    ensures
        color >= 0 ==> unit_clamp(
            quot(quot(color * unit_clamp(light), ONE as int) * unit_clamp(ONE - reflectivity), ONE as int)
                + quot(incoming * unit_clamp(reflectivity), ONE as int),
        ) >= ambient_share(color, reflectivity),
{
    if color >= 0 {
        let keep = unit_clamp(ONE - reflectivity);
        let back = unit_clamp(reflectivity);
        assert(0 <= color * AMBIENT <= color * light) by (nonlinear_arith)
            requires
                color >= 0,
                0 <= AMBIENT <= light,
        ;
        lemma_quot_monotone(color * AMBIENT, color * light, ONE as int);
        let dim = quot(color * AMBIENT, ONE as int);
        let lit = quot(color * light, ONE as int);
        assert(0 <= dim * keep <= lit * keep) by (nonlinear_arith)
            requires
                0 <= dim <= lit,
                0 <= keep,
        ;
        lemma_quot_monotone(dim * keep, lit * keep, ONE as int);
        assert(0 <= incoming * back) by (nonlinear_arith)
            requires
                0 <= incoming,
                0 <= back,
        ;
        lemma_quot(incoming * back, ONE as int);
    }
}

/// A light adds no less where more of its samples arrive.
pub proof fn lemma_light_term_monotone(value: Vec3, fewer: int, more: int)
    requires
        0 <= fewer <= more,
    ensures
        light_term(value, fewer).x <= light_term(value, more).x,
        light_term(value, fewer).y <= light_term(value, more).y,
        light_term(value, fewer).z <= light_term(value, more).z,
{
    lemma_channel_monotone(value.x, fewer, more);
    lemma_channel_monotone(value.y, fewer, more);
    lemma_channel_monotone(value.z, fewer, more);
}

/// On a channel where each sample is worth at least `SAMPLES` and at most
/// `ONE`, a light adds strictly more where more of its samples arrive.
pub proof fn lemma_light_term_strict(value: int, fewer: int, more: int)
    requires
        0 <= fewer < more <= SAMPLES,
        SAMPLES <= value <= ONE,
    ensures
        unit_clamp(quot(value * fewer, SAMPLES as int)) < unit_clamp(
            quot(value * more, SAMPLES as int),
        ),
{
    assert(0 <= value * fewer && value * fewer + 100 <= value * more && value * more <= 100 * ONE)
        by (nonlinear_arith)
        requires
            0 <= fewer < more <= 100,
            100 <= value <= ONE,
    ;
    lemma_quot(value * fewer, SAMPLES as int);
    lemma_quot(value * more, SAMPLES as int);
}

proof fn lemma_channel_monotone(value: int, fewer: int, more: int)
    requires
        0 <= fewer <= more,
    ensures
        unit_clamp(quot(value * fewer, SAMPLES as int))
            <= unit_clamp(quot(value * more, SAMPLES as int)),
{
    lemma_quot(value * fewer, SAMPLES as int);
    lemma_quot(value * more, SAMPLES as int);
    if value >= 0 {
        assert(0 <= value * fewer <= value * more) by (nonlinear_arith)
            requires
                0 <= fewer <= more,
                value >= 0,
        ;
    } else {
        assert(value * fewer <= 0 && value * more <= 0) by (nonlinear_arith)
            requires
                0 <= fewer <= more,
                value < 0,
        ;
    }
}

/// The point moved off its surface, where shadow rays start.
pub fn lift(p: Vector3, n: Vector3) -> (res: Vector3)
    requires
        in_world(p@),
        n@.within(ONE as int),
    ensures
        res@ == lifted(p@, n@),
        res@.within(ORIGIN_MAX as int),
{
    proof {
        lemma_scaled_within(n@, EPSILON as int, ONE as int, ONE as int, EPSILON as int);
        lemma_lift_small(n@.x);
        lemma_lift_small(n@.y);
        lemma_lift_small(n@.z);
    }
    let off: Vector3 = n.scale(EPSILON as i128, ONE as i128);
    p + off
}

proof fn lemma_lift_small(c: int)
    requires
        -ONE <= c <= ONE,
    ensures
        -EPSILON <= quot(c * EPSILON, ONE as int) <= EPSILON,
{
    lemma_quot(c * EPSILON, ONE as int);
}

/// Builds the basis of a light's disc.
pub fn basis_of(to_light: Vector3) -> (res: Option<(Vector3, Vector3)>)
    requires
        to_light@.within(20_000_000_000),
    ensures
        match res {
            Some((d1, d2)) => disc_basis(to_light@) == Some((d1@, d2@)) && d1@.within(ONE as int)
                && d2@.within(ONE as int) && !to_light@.is_zero(),
            None => disc_basis(to_light@) is None,
        },
{
    let axis: Vector3 = Vector3 { x: ONE, y: 0, z: 0 };
    proof {
        lemma_cross_bound(axis@, to_light@, ONE as int, 20_000_000_000);
    }
    let c1: Vector3 = axis.cross(to_light);
    if c1.x == 0 && c1.y == 0 && c1.z == 0 {
        return None;
    }
    let d1: Vector3 = c1.norm();
    proof {
        lemma_cross_bound(d1@, to_light@, ONE as int, 20_000_000_000);
    }
    let c2: Vector3 = d1.cross(to_light);
    if c2.x == 0 && c2.y == 0 && c2.z == 0 {
        return None;
    }
    let d2: Vector3 = c2.norm();
    Some((d1, d2))
}

/// The offset of a cell of the grid.
pub fn offset_of(basis: &(Vector3, Vector3), cell: i64) -> (res: Vector3)
    requires
        0 <= cell < SAMPLES,
        basis.0@.within(ONE as int),
        basis.1@.within(ONE as int),
    ensures
        res@ == cell_offset((basis.0@, basis.1@), cell as int),
        res@.within(2 * ONE),
{
    let row: i64 = cell / 10 - 5;
    let column: i64 = cell % 10 - 5;
    proof {
        lemma_scaled_within(basis.0@, row as int, 10, ONE as int, 5);
        lemma_scaled_within(basis.1@, column as int, 10, ONE as int, 5);
    }
    let a: Vector3 = basis.0.scale(row as i128, 10);
    let b: Vector3 = basis.1.scale(column as i128, 10);
    a + b
}

/// Decides whether a sample of a light is seen from the point `p`, given
/// the point that shadow rays from `p` start at.
pub fn sample_is_clear(
    scene: &Scene,
    p: Vector3,
    n: Vector3,
    start: Vector3,
    light: &Light,
    offset: Vector3,
) -> (res: bool)
    requires
        surfaces_wf(scene.objects@),
        light.wf(),
        in_world(p@),
        start@ == lifted(p@, n@),
        start@.within(ORIGIN_MAX as int),
        offset@.within(2 * ONE),
    ensures
        res == sample_clear(scene.objects@, p@, n@, *light, offset@),
{
    let to_light: Vector3 = light.position - p;
    let toward: Vector3 = to_light + offset;
    if toward.x == 0 && toward.y == 0 && toward.z == 0 {
        return true;
    }
    let shadow: Ray = Ray::new(start, toward);
    match shadow.cast(scene) {
        None => true,
        Some((h, object)) => {
            let reach: Vector3 = h - p;
            proof {
                lemma_norm2_bounds(reach@, 20_000_000_000);
                lemma_norm2_bounds(to_light@, 20_000_000_000);
            }
            reach.dot(reach) > to_light.dot(to_light)
        },
    }
}

/// Counts the samples of a light that light the point `p`.
pub fn count_lit(scene: &Scene, p: Vector3, n: Vector3, light: &Light, basis: &(Vector3, Vector3)) -> (res:
    i64)
    requires
        surfaces_wf(scene.objects@),
        light.wf(),
        in_world(p@),
        n@.within(ONE as int),
        basis.0@.within(ONE as int),
        basis.1@.within(ONE as int),
    ensures
        res == lit_count(scene.objects@, p@, n@, *light, (basis.0@, basis.1@), SAMPLES as int),
        0 <= res <= SAMPLES,
{
    let start: Vector3 = lift(p, n);
    let radius: i128 = light.radius as i128;
    proof {
        lemma_product_bound(radius as int, radius as int, 10_000_000_000, 10_000_000_000);
    }
    let disc: i128 = radius * radius;
    let mut count: i64 = 0;
    let mut cell: i64 = 0;
    while cell < SAMPLES
        invariant
            surfaces_wf(scene.objects@),
            light.wf(),
            in_world(p@),
            n@.within(ONE as int),
            basis.0@.within(ONE as int),
            basis.1@.within(ONE as int),
            start@ == lifted(p@, n@),
            start@.within(ORIGIN_MAX as int),
            disc == light.radius * light.radius,
            0 <= cell <= SAMPLES,
            0 <= count <= cell,
            count == lit_count(scene.objects@, p@, n@, *light, (basis.0@, basis.1@), cell as int),
        decreases SAMPLES - cell,
    {
        let offset: Vector3 = offset_of(basis, cell);
        proof {
            lemma_norm2_bounds(offset@, 2 * ONE);
        }
        if light.radius >= 0 && offset.dot(offset) <= disc {
            if sample_is_clear(scene, p, n, start, light, offset) {
                count = count + 1;
            }
        }
        cell = cell + 1;
    }
    count
}

/// The direct light that one light sheds on a point.
pub fn light_on(scene: &Scene, light: &Light, p: Vector3, n: Vector3) -> (res: Color)
    requires
        surfaces_wf(scene.objects@),
        light.wf(),
        in_world(p@),
        n@.within(ONE as int),
    ensures
        res@ == light_contribution(scene.objects@, *light, p@, n@),
        res.in_range(),
{
    let to_light: Vector3 = light.position - p;
    match basis_of(to_light) {
        None => Color { r: 0, g: 0, b: 0 },
        Some(basis) => {
            let count: i64 = count_lit(scene, p, n, light, &basis);
            let toward: Vector3 = to_light.norm();
            let cosine: i128 = toward.dot(n) / (ONE as i128);
            proof {
                lemma_product_bound(toward.x as int, n.x as int, ONE as int, ONE as int);
                lemma_product_bound(toward.y as int, n.y as int, ONE as int, ONE as int);
                lemma_product_bound(toward.z as int, n.z as int, ONE as int, ONE as int);
                lemma_quot(toward@.dot(n@), ONE as int);
            }
            let factor: i128 = if cosine > 0 {
                cosine
            } else {
                0
            };
            Color {
                r: sample_sum(light.intensity.r, factor, count),
                g: sample_sum(light.intensity.g, factor, count),
                b: sample_sum(light.intensity.b, factor, count),
            }
        },
    }
}

/// One channel of what a light adds: `count` samples of the intensity
/// weakened by the factor, averaged over all samples.
fn sample_sum(intensity: i64, factor: i128, count: i64) -> (res: i64)
    requires
        0 <= factor <= 3 * ONE,
        0 <= count <= SAMPLES,
    ensures
        res == unit_clamp(
            quot(quot(intensity * factor, ONE as int) * count, SAMPLES as int),
        ),
{
    proof {
        lemma_product_bound(
            intensity as int,
            factor as int,
            0x8000_0000_0000_0000,
            3_000_000,
        );
        lemma_quot(intensity * factor, ONE as int);
        lemma_product_bound(
            quot(intensity * factor, ONE as int),
            count as int,
            0x8000_0000_0000_0000int * 3_000_000,
            100,
        );
    }
    let value: i128 = (intensity as i128 * factor) / (ONE as i128);
    clamp_channel((value * count as i128) / (SAMPLES as i128))
}

/// The ambient light and the direct light of every light of the scene.
pub fn illuminate(scene: &Scene, p: Vector3, n: Vector3) -> (res: Color)
    requires
        scene.wf(),
        in_world(p@),
        n@.within(ONE as int),
    ensures
        res@ == illumination(scene.objects@, scene.lights@, p@, n@, scene.lights@.len() as int),
        res.in_range(),
{
    let lights: &Vec<Light> = scene.get_lights();
    let mut total: Color = Color { r: AMBIENT, g: AMBIENT, b: AMBIENT };
    let mut k: usize = 0;
    while k < lights.len()
        invariant
            scene.wf(),
            *lights == scene.lights,
            in_world(p@),
            n@.within(ONE as int),
            0 <= k <= lights.len(),
            total@ == illumination(scene.objects@, scene.lights@, p@, n@, k as int),
            total.in_range(),
        decreases lights.len() - k,
    {
        let share: Color = light_on(scene, &lights[k], p, n);
        total = total.plus(share);
        k = k + 1;
    }
    total
}

/// The ray mirrored at the point `p` of a surface with normal `n`, if the
/// mirrored direction is not the zero vector.
pub fn mirror(p: Vector3, d: Vector3, n: Vector3) -> (res: Option<Ray>)
    requires
        in_world(p@),
        d@.within(ONE as int),
        n@.within(ONE as int),
    ensures
        match res {
            Some(r) => bounce(p@, d@, n@) == Some(r@) && r.wf(),
            None => bounce(p@, d@, n@) is None,
        },
{
    proof {
        lemma_product_bound(d.x as int, n.x as int, ONE as int, ONE as int);
        lemma_product_bound(d.y as int, n.y as int, ONE as int, ONE as int);
        lemma_product_bound(d.z as int, n.z as int, ONE as int, ONE as int);
    }
    let twice: i128 = 2 * d.dot(n);
    let unit2: i128 = ONE as i128 * ONE as i128;
    proof {
        lemma_mirror_small(n@.x, twice as int);
        lemma_mirror_small(n@.y, twice as int);
        lemma_mirror_small(n@.z, twice as int);
    }
    let turn: Vector3 = n.scale(twice, unit2);
    let r: Vector3 = d - turn;
    if r.x == 0 && r.y == 0 && r.z == 0 {
        None
    } else {
        Some(Ray::new(p, r))
    }
}

proof fn lemma_mirror_small(c: int, twice: int)
    requires
        -ONE <= c <= ONE,
        -6_000_000_000_000 <= twice <= 6_000_000_000_000,
    ensures
        -6 * ONE <= quot(c * twice, ONE * ONE) <= 6 * ONE,
{
    lemma_product_bound(c, twice, ONE as int, 6_000_000_000_000);
    lemma_quot(c * twice, ONE * ONE);
}

/// The shading engine.
pub struct ColorRay {}

impl ColorRay {
    /// The color seen along the ray. Reflections are followed while the
    /// depth is positive, one level less deep each time; at a depth of zero
    /// or less a surface shows its ambient and direct light only. A ray that
    /// meets nothing sees black.
    pub fn cast(&self, scene: &Scene, ray: &Ray, depth: isize) -> (res: Color)
        requires
            scene.wf(),
            ray.wf(),
        ensures
            res@ == radiance(scene.objects@, scene.lights@, ray@, depth as int),
            res.in_range(),
    {
        self.trace(scene, ray, depth).0
    }

    /// The color seen along the ray, and the number of reflections that
    /// were followed to find it: no more than the depth.
    pub fn trace(&self, scene: &Scene, ray: &Ray, depth: isize) -> (res: (Color, usize))
        requires
            scene.wf(),
            ray.wf(),
        ensures
            res.0@ == radiance(scene.objects@, scene.lights@, ray@, depth as int),
            res.0.in_range(),
            res.1 == reflections(scene.objects@, ray@, depth as int),
            depth <= 0 ==> res.1 == 0,
            depth >= 0 ==> res.1 <= depth,
        decreases depth,
    {
        match ray.cast(scene) {
            None => (Color { r: 0, g: 0, b: 0 }, 0),
            Some((p, object)) => {
                let n: Vector3 = object.normal(&p);
                let light: Color = illuminate(scene, p, n);
                let material: &Material = object.get_material();
                let reflectivity: i64 = material.get_reflectivity();
                let mut incoming: Color = Color { r: 0, g: 0, b: 0 };
                let mut followed: usize = 0;
                if depth > 0 && reflectivity > 0 {
                    match mirror(p, ray.direction, n) {
                        Some(out) => {
                            let deeper: (Color, usize) = self.trace(scene, &out, depth - 1);
                            incoming = deeper.0;
                            followed = deeper.1 + 1;
                        },
                        None => {},
                    }
                }
                let keep: i64 = clamp_channel(ONE as i128 - reflectivity as i128);
                let direct: Color = material.get_color().times(light).scaled(keep);
                (direct.plus(incoming.scaled(reflectivity)), followed)
            },
        }
    }
}

} // verus!
