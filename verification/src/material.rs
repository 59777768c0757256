//! Colors, with channels that saturate at zero and one, and materials.

use crate::basics::{Vec3, Vector3};
use crate::numeric::{abs, clamp, lemma_quot, quot, ONE};
use vstd::prelude::*;

verus! {

/// One channel clamped into the range from zero to `ONE`.
pub open spec fn unit_clamp(a: int) -> int {
    clamp(a, 0, ONE as int)
}

/// All three channels clamped into the range from zero to `ONE`.
pub open spec fn saturated(c: Vec3) -> Vec3 {
    Vec3 { x: unit_clamp(c.x), y: unit_clamp(c.y), z: unit_clamp(c.z) }
}

/// All three channels lie between zero and `ONE`.
pub open spec fn in_unit_range(c: Vec3) -> bool {
    0 <= c.x <= ONE && 0 <= c.y <= ONE && 0 <= c.z <= ONE
}

/// The sum of two colors, saturated.
pub open spec fn color_sum(a: Vec3, b: Vec3) -> Vec3 {
    saturated(a.plus(b))
}

/// The channelwise product of a color with a saturated second color.
pub open spec fn color_product(a: Vec3, b: Vec3) -> Vec3 {
    Vec3 {
        x: quot(a.x * unit_clamp(b.x), ONE as int),
        y: quot(a.y * unit_clamp(b.y), ONE as int),
        z: quot(a.z * unit_clamp(b.z), ONE as int),
    }
}

/// A color attenuated by a factor that is first clamped between zero and
/// `ONE`.
pub open spec fn color_scaled(a: Vec3, k: int) -> Vec3 {
    a.scaled(unit_clamp(k), ONE as int)
}

/// The value of a channel on the scale from 0 to 255.
pub open spec fn channel_level(c: int) -> int {
    unit_clamp(c) * 255 / (ONE as int)
}

/// An additive color; each channel is a fixed-point number.
#[derive(Copy, Clone, Debug, PartialEq, Eq, Structural)]
pub struct Color {
    pub r: i64,
    pub g: i64,
    pub b: i64,
}

impl View for Color {
    type V = Vec3;

    open spec fn view(&self) -> Vec3 {
        Vec3 { x: self.r as int, y: self.g as int, z: self.b as int }
    }
}

/// Clamps a number into the range of a channel.
pub fn clamp_channel(a: i128) -> (res: i64)
    ensures
        res == unit_clamp(a as int),
{
    if a < 0 {
        0
    } else if a > ONE as i128 {
        ONE
    } else {
        a as i64
    }
}

fn attenuate(c: i64, k: i64) -> (res: i64)
    requires
        0 <= k <= ONE,
    ensures
        res == quot(c * k, ONE as int),
        abs(res as int) <= abs(c as int),
        c >= 0 ==> res >= 0,
        0 <= c <= ONE ==> res <= k,
{
    proof {
        assert(-0x8000_0000_0000_0000 * 1_000_000 <= c * k <= 0x8000_0000_0000_0000 * 1_000_000)
            by (nonlinear_arith)
            requires
                -0x8000_0000_0000_0000 <= c < 0x8000_0000_0000_0000,
                0 <= k <= 1_000_000,
        ;
        lemma_quot(c * k, ONE as int);
        let q = quot(c * k, ONE as int);
        if c >= 0 {
            assert(c * k >= 0 && c * k <= c * ONE) by (nonlinear_arith)
                requires
                    c >= 0,
                    0 <= k <= ONE,
            ;
            if c <= ONE {
                assert(c * k <= ONE * k) by (nonlinear_arith)
                    requires
                        0 <= c <= ONE,
                        0 <= k,
                ;
            }
        } else {
            assert(c * k <= 0 && c * k >= c * ONE) by (nonlinear_arith)
                requires
                    c < 0,
                    0 <= k <= ONE,
            ;
        }
    }
    let p: i128 = (c as i128 * k as i128) / (ONE as i128);
    p as i64
}

impl Color {
    /// Every channel lies between zero and `ONE`.
    pub open spec fn in_range(&self) -> bool {
        in_unit_range(self@)
    }

    /// Builds a color, clamping each channel into the range from zero to
    /// `ONE`.
    pub fn new(r: i64, g: i64, b: i64) -> (res: Self)
        ensures
            res@ == saturated(Vec3 { x: r as int, y: g as int, z: b as int }),
            res.in_range(),
    {
        Color { r: clamp_channel(r as i128), g: clamp_channel(g as i128), b: clamp_channel(b as i128) }
    }

    /// The color attenuated by a fixed-point factor, which is first clamped
    /// between zero and `ONE`.
    pub fn scaled(self, k: i64) -> (res: Color)
        ensures
            res@ == color_scaled(self@, k as int),
            self.in_range() ==> res.in_range(),
    {
        let f: i64 = clamp_channel(k as i128);
        Color { r: attenuate(self.r, f), g: attenuate(self.g, f), b: attenuate(self.b, f) }
    }

    /// The channelwise product with a second color, which is first clamped
    /// into range.
    pub fn times(self, rhs: Color) -> (res: Color)
        ensures
            res@ == color_product(self@, rhs@),
            self.in_range() ==> res.in_range(),
    {
        Color {
            r: attenuate(self.r, clamp_channel(rhs.r as i128)),
            g: attenuate(self.g, clamp_channel(rhs.g as i128)),
            b: attenuate(self.b, clamp_channel(rhs.b as i128)),
        }
    }

    /// The sum with a second color, saturated.
    pub fn plus(self, rhs: Color) -> (res: Color)
        ensures
            res@ == color_sum(self@, rhs@),
            res.in_range(),
    {
        Color {
            r: clamp_channel(self.r as i128 + rhs.r as i128),
            g: clamp_channel(self.g as i128 + rhs.g as i128),
            b: clamp_channel(self.b as i128 + rhs.b as i128),
        }
    }

    /// The three channels on the scale from 0 to 255, rounded down after
    /// clamping.
    pub fn levels(&self) -> (res: (u8, u8, u8))
        ensures
            res.0 == channel_level(self.r as int),
            res.1 == channel_level(self.g as int),
            res.2 == channel_level(self.b as int),
    {
        let r: i64 = clamp_channel(self.r as i128) * 255 / ONE;
        let g: i64 = clamp_channel(self.g as i128) * 255 / ONE;
        let b: i64 = clamp_channel(self.b as i128) * 255 / ONE;
        (r as u8, g as u8, b as u8)
    }
}

impl Default for Color {
    fn default() -> (res: Color)
        ensures
            res == (Color { r: 0, g: 0, b: 0 }),
    {
        Color { r: 0, g: 0, b: 0 }
    }
}

/// Attenuation by a fixed-point factor, clamped between zero and `ONE`.
impl core::ops::Mul<i64> for Color {
    type Output = Color;

    fn mul(self, rhs: i64) -> (res: Color) {
        self.scaled(rhs)
    }
}

impl vstd::std_specs::ops::MulSpecImpl<i64> for Color {
    open spec fn obeys_mul_spec() -> bool {
        true
    }

    open spec fn mul_req(self, rhs: i64) -> bool {
        true
    }

    open spec fn mul_spec(self, rhs: i64) -> Color {
        Color {
            r: color_scaled(self@, rhs as int).x as i64,
            g: color_scaled(self@, rhs as int).y as i64,
            b: color_scaled(self@, rhs as int).z as i64,
        }
    }
}

/// Channelwise product; the right-hand side is clamped first.
impl core::ops::Mul<Color> for Color {
    type Output = Color;

    fn mul(self, rhs: Color) -> (res: Color) {
        self.times(rhs)
    }
}

impl vstd::std_specs::ops::MulSpecImpl<Color> for Color {
    open spec fn obeys_mul_spec() -> bool {
        true
    }

    open spec fn mul_req(self, rhs: Color) -> bool {
        true
    }

    open spec fn mul_spec(self, rhs: Color) -> Color {
        Color {
            r: color_product(self@, rhs@).x as i64,
            g: color_product(self@, rhs@).y as i64,
            b: color_product(self@, rhs@).z as i64,
        }
    }
}

/// Saturating sum.
impl core::ops::Add for Color {
    type Output = Color;

    fn add(self, rhs: Color) -> (res: Color) {
        self.plus(rhs)
    }
}

impl vstd::std_specs::ops::AddSpecImpl for Color {
    open spec fn obeys_add_spec() -> bool {
        true
    }

    open spec fn add_req(self, rhs: Color) -> bool {
        true
    }

    open spec fn add_spec(self, rhs: Color) -> Color {
        Color {
            r: color_sum(self@, rhs@).x as i64,
            g: color_sum(self@, rhs@).y as i64,
            b: color_sum(self@, rhs@).z as i64,
        }
    }
}

impl core::ops::AddAssign for Color {
    fn add_assign(&mut self, rhs: Color)
        ensures
            final(self)@ == color_sum(old(self)@, rhs@),
    {
        *self = self.plus(rhs);
    }
}

impl core::ops::MulAssign for Color {
    fn mul_assign(&mut self, rhs: Color)
        ensures
            final(self)@ == color_product(old(self)@, rhs@),
    {
        *self = self.times(rhs);
    }
}

impl From<(i64, i64, i64)> for Color {
    fn from(arg: (i64, i64, i64)) -> (res: Color) {
        Color { r: arg.0, g: arg.1, b: arg.2 }
    }
}

impl vstd::std_specs::convert::FromSpecImpl<(i64, i64, i64)> for Color {
    open spec fn obeys_from_spec() -> bool {
        true
    }

    open spec fn from_spec(arg: (i64, i64, i64)) -> Color {
        Color { r: arg.0, g: arg.1, b: arg.2 }
    }
}

/// The conversion clamps each component into the range of a channel.
impl From<Vector3> for Color {
    fn from(arg: Vector3) -> (res: Color) {
        Color::new(arg.x, arg.y, arg.z)
    }
}

impl vstd::std_specs::convert::FromSpecImpl<Vector3> for Color {
    open spec fn obeys_from_spec() -> bool {
        true
    }

    open spec fn from_spec(arg: Vector3) -> Color {
        Color {
            r: unit_clamp(arg.x as int) as i64,
            g: unit_clamp(arg.y as int) as i64,
            b: unit_clamp(arg.z as int) as i64,
        }
    }
}

impl From<Color> for Vector3 {
    fn from(col: Color) -> (res: Vector3) {
        Vector3 { x: col.r, y: col.g, z: col.b }
    }
}

impl vstd::std_specs::convert::FromSpecImpl<Color> for Vector3 {
    open spec fn obeys_from_spec() -> bool {
        true
    }

    open spec fn from_spec(col: Color) -> Vector3 {
        Vector3 { x: col.r, y: col.g, z: col.b }
    }
}

impl From<(i64, i64, i64)> for Vector3 {
    fn from(arg: (i64, i64, i64)) -> (res: Vector3) {
        Vector3 { x: arg.0, y: arg.1, z: arg.2 }
    }
}

impl vstd::std_specs::convert::FromSpecImpl<(i64, i64, i64)> for Vector3 {
    open spec fn obeys_from_spec() -> bool {
        true
    }

    open spec fn from_spec(arg: (i64, i64, i64)) -> Vector3 {
        Vector3 { x: arg.0, y: arg.1, z: arg.2 }
    }
}

/// What a surface looks like: its own color and how much of a mirror it is.
#[derive(Copy, Clone, Debug, PartialEq, Eq, Structural)]
pub struct Material {
    pub color: Color,
    pub reflectivity: i64,
}

impl Material {
    pub fn new(color: Color, reflectivity: i64) -> (res: Self)
        ensures
            res.color == color,
            res.reflectivity == reflectivity,
    {
        Material { color, reflectivity }
    }

    pub fn get_color(&self) -> (res: &Color)
        ensures
            *res == self.color,
    {
        &self.color
    }

    pub fn get_reflectivity(&self) -> (res: i64)
        ensures
            res == self.reflectivity,
    {
        self.reflectivity
    }
}

} // verus!
