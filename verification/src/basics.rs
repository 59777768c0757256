//! Vectors and the arithmetic on them.

use crate::numeric::{
    abs, int_sqrt, is_root, isqrt, lemma_isqrt, lemma_mul4, lemma_product_bound, lemma_quot,
    lemma_root_below, lemma_square2, quot, COORD_MAX, ONE,
};
use vstd::prelude::*;

verus! {

/// A vector of three mathematical integers: what a `Vector3` stands for.
pub struct Vec3 {
    pub x: int,
    pub y: int,
    pub z: int,
}

impl Vec3 {
    /// The dot product.
    pub open spec fn dot(self, o: Vec3) -> int {
        self.x * o.x + self.y * o.y + self.z * o.z
    }

    /// The cross product.
    pub open spec fn cross(self, o: Vec3) -> Vec3 {
        Vec3 {
            x: self.y * o.z - self.z * o.y,
            y: self.z * o.x - self.x * o.z,
            z: self.x * o.y - self.y * o.x,
        }
    }

    /// The componentwise sum.
    pub open spec fn plus(self, o: Vec3) -> Vec3 {
        Vec3 { x: self.x + o.x, y: self.y + o.y, z: self.z + o.z }
    }

    /// The componentwise difference.
    pub open spec fn minus(self, o: Vec3) -> Vec3 {
        Vec3 { x: self.x - o.x, y: self.y - o.y, z: self.z - o.z }
    }

    /// Each component multiplied by `num` and divided by `den`, truncating.
    pub open spec fn scaled(self, num: int, den: int) -> Vec3 {
        Vec3 {
            x: quot(self.x * num, den),
            y: quot(self.y * num, den),
            z: quot(self.z * num, den),
        }
    }

    /// The squared length.
    pub open spec fn norm2(self) -> int {
        self.dot(self)
    }

    /// The length, rounded down.
    pub open spec fn mag(self) -> int {
        isqrt(self.norm2())
    }

    /// The vector of length about `ONE` that points the same way.
    pub open spec fn unit(self) -> Vec3 {
        self.scaled(ONE as int, self.mag())
    }

    /// The squared distance to `o`.
    pub open spec fn dist2(self, o: Vec3) -> int {
        self.minus(o).norm2()
    }

    /// No component exceeds `m` in absolute value.
    pub open spec fn within(self, m: int) -> bool {
        abs(self.x) <= m && abs(self.y) <= m && abs(self.z) <= m
    }

    /// The vector is the zero vector.
    pub open spec fn is_zero(self) -> bool {
        self.x == 0 && self.y == 0 && self.z == 0
    }

    /// The sum of the absolute values of the components.
    pub open spec fn norm1(self) -> int {
        abs(self.x) + abs(self.y) + abs(self.z)
    }
}

/// A point or a direction in space, in fixed-point coordinates.
#[derive(Copy, Clone, Debug, PartialEq, Eq, Structural)]
pub struct Vector3 {
    pub x: i64,
    pub y: i64,
    pub z: i64,
}

impl View for Vector3 {
    type V = Vec3;

    open spec fn view(&self) -> Vec3 {
        Vec3 { x: self.x as int, y: self.y as int, z: self.z as int }
    }
}

impl Vector3 {
    /// The components are small enough for every operation of this type.
    pub open spec fn wf(&self) -> bool {
        self@.within(COORD_MAX as int)
    }

    pub fn new(x: i64, y: i64, z: i64) -> (res: Self)
        ensures
            res.x == x,
            res.y == y,
            res.z == z,
    {
        Vector3 { x, y, z }
    }

    /// The exact dot product, in squared units.
    pub fn dot(&self, vec: Vector3) -> (res: i128)
        requires
            self.wf(),
            vec.wf(),
        ensures
            res == self@.dot(vec@),
    {
        proof {
            lemma_product_bound(self.x as int, vec.x as int, COORD_MAX as int, COORD_MAX as int);
            lemma_product_bound(self.y as int, vec.y as int, COORD_MAX as int, COORD_MAX as int);
            lemma_product_bound(self.z as int, vec.z as int, COORD_MAX as int, COORD_MAX as int);
        }
        let x: i128 = self.x as i128 * vec.x as i128;
        let y: i128 = self.y as i128 * vec.y as i128;
        let z: i128 = self.z as i128 * vec.z as i128;
        x + y + z
    }

    /// The exact cross product.
    pub fn cross(&self, vec: Vector3) -> (res: Vector3)
        requires
            self.wf(),
            vec.wf(),
            self@.cross(vec@).within(i64::MAX as int),
        ensures
            res@ == self@.cross(vec@),
    {
        proof {
            lemma_product_bound(self.y as int, vec.z as int, COORD_MAX as int, COORD_MAX as int);
            lemma_product_bound(self.z as int, vec.y as int, COORD_MAX as int, COORD_MAX as int);
            lemma_product_bound(self.z as int, vec.x as int, COORD_MAX as int, COORD_MAX as int);
            lemma_product_bound(self.x as int, vec.z as int, COORD_MAX as int, COORD_MAX as int);
            lemma_product_bound(self.x as int, vec.y as int, COORD_MAX as int, COORD_MAX as int);
            lemma_product_bound(self.y as int, vec.x as int, COORD_MAX as int, COORD_MAX as int);
        }
        let x: i128 = self.y as i128 * vec.z as i128 - self.z as i128 * vec.y as i128;
        let y: i128 = self.z as i128 * vec.x as i128 - self.x as i128 * vec.z as i128;
        let z: i128 = self.x as i128 * vec.y as i128 - self.y as i128 * vec.x as i128;
        Vector3 { x: x as i64, y: y as i64, z: z as i64 }
    }

    /// The length, rounded down.
    pub fn mag(&self) -> (res: i64)
        requires
            self.wf(),
        ensures
            res == self@.mag(),
            is_root(self@.norm2(), res as int),
    {
        let n: i128 = self.dot(*self);
        proof {
            lemma_norm2_bounds(self@, COORD_MAX as int);
        }
        let r: u64 = int_sqrt(n as u128);
        proof {
            lemma_root_below(n as int, r as int, 7_000_000_000_000_000_000);
        }
        r as i64
    }

    /// Each component multiplied by `num` and divided by `den`, truncating.
    pub fn scale(&self, num: i128, den: i128) -> (res: Vector3)
        requires
            den > 0,
            abs(num as int) <= COORD_MAX,
            self.wf(),
            self@.scaled(num as int, den as int).within(i64::MAX as int),
        ensures
            res@ == self@.scaled(num as int, den as int),
    {
        proof {
            lemma_product_bound(self.x as int, num as int, COORD_MAX as int, COORD_MAX as int);
            lemma_product_bound(self.y as int, num as int, COORD_MAX as int, COORD_MAX as int);
            lemma_product_bound(self.z as int, num as int, COORD_MAX as int, COORD_MAX as int);
        }
        let x: i128 = (self.x as i128 * num) / den;
        let y: i128 = (self.y as i128 * num) / den;
        let z: i128 = (self.z as i128 * num) / den;
        Vector3 { x: x as i64, y: y as i64, z: z as i64 }
    }

    /// The vector of length about `ONE` that points the same way.
    pub fn norm(&self) -> (res: Vector3)
        requires
            self.wf(),
            !self@.is_zero(),
        ensures
            res@ == self@.unit(),
            res@.within(ONE as int),
            !res@.is_zero(),
            res@.norm2() >= ONE * ONE - 4 * ONE,
            self@.mag() >= ONE ==> res@.norm2() < (ONE + 1) * (ONE + 1),
    {
        let m: i64 = self.mag();
        proof {
            lemma_unit(self@);
            lemma_unit_length(self@);
        }
        self.scale(ONE as i128, m as i128)
    }

    /// The distance between two points, rounded down.
    pub fn dist_between(vec1: &Vector3, vec2: &Vector3) -> (res: i64)
        requires
            vec1.wf(),
            vec2.wf(),
            vec1@.minus(vec2@).within(COORD_MAX as int),
        ensures
            res == isqrt(vec1@.dist2(vec2@)),
    {
        let d: Vector3 = *vec1 - *vec2;
        d.mag()
    }
}

/// The cross product of two bounded vectors is bounded.
pub proof fn lemma_cross_bound(a: Vec3, b: Vec3, ma: int, mb: int)
    requires
        a.within(ma),
        b.within(mb),
    ensures
        a.cross(b).within(2 * (ma * mb)),
{
    lemma_product_bound(a.y, b.z, ma, mb);
    lemma_product_bound(a.z, b.y, ma, mb);
    lemma_product_bound(a.z, b.x, ma, mb);
    lemma_product_bound(a.x, b.z, ma, mb);
    lemma_product_bound(a.x, b.y, ma, mb);
    lemma_product_bound(a.y, b.x, ma, mb);
}

/// The squared length of a bounded vector is bounded, and is zero for the
/// zero vector only.
pub proof fn lemma_norm2_bounds(v: Vec3, m: int)
    requires
        v.within(m),
    ensures
        0 <= v.norm2() <= 3 * (m * m),
        v.is_zero() <==> v.norm2() == 0,
        0 <= v.x * v.x <= v.norm2(),
        0 <= v.y * v.y <= v.norm2(),
        0 <= v.z * v.z <= v.norm2(),
{
    lemma_product_bound(v.x, v.x, m, m);
    lemma_product_bound(v.y, v.y, m, m);
    lemma_product_bound(v.z, v.z, m, m);
    assert(v.x * v.x >= 0 && (v.x != 0 ==> v.x * v.x > 0)) by (nonlinear_arith);
    assert(v.y * v.y >= 0 && (v.y != 0 ==> v.y * v.y > 0)) by (nonlinear_arith);
    assert(v.z * v.z >= 0 && (v.z != 0 ==> v.z * v.z > 0)) by (nonlinear_arith);
}

/// Normalizing a nonzero vector gives components of at most `ONE`, not all
/// of them zero.
pub proof fn lemma_unit(v: Vec3)
    requires
        !v.is_zero(),
    ensures
        v.mag() > 0,
        is_root(v.norm2(), v.mag()),
        v.unit().within(ONE as int),
        !v.unit().is_zero(),
{
    let n = v.norm2();
    assert(v.x * v.x >= 0 && (v.x != 0 ==> v.x * v.x > 0)) by (nonlinear_arith);
    assert(v.y * v.y >= 0 && (v.y != 0 ==> v.y * v.y > 0)) by (nonlinear_arith);
    assert(v.z * v.z >= 0 && (v.z != 0 ==> v.z * v.z > 0)) by (nonlinear_arith);
    lemma_isqrt(n);
    let m = v.mag();
    assert(m > 0) by {
        if m == 0 {
            assert((m + 1) * (m + 1) == 1) by (nonlinear_arith)
                requires
                    m == 0,
            ;
        }
    }
    lemma_unit_component(v.x, n, m);
    lemma_unit_component(v.y, n, m);
    lemma_unit_component(v.z, n, m);
    if 3 * (v.x * v.x) >= n {
        lemma_unit_large(v.x, n, m);
    } else if 3 * (v.y * v.y) >= n {
        lemma_unit_large(v.y, n, m);
    } else {
        lemma_unit_large(v.z, n, m);
    }
}

/// Normalizing gives a vector of length about `ONE`: never shorter than
/// `ONE` by more than two units, and, for a vector that is at least `ONE`
/// long, never longer than `ONE` by a whole unit.
pub proof fn lemma_unit_length(v: Vec3)
    requires
        !v.is_zero(),
    ensures
        v.unit().norm2() >= ONE * ONE - 4 * ONE,
        v.mag() >= ONE ==> v.unit().norm2() < (ONE + 1) * (ONE + 1),
{
    let n = v.norm2();
    let m = v.mag();
    let u = v.unit();
    let uu = u.norm2();
    let one = ONE as int;
    lemma_unit(v);
    let (tx, sx) = lemma_unit_coordinate(v.x, m);
    let (ty, sy) = lemma_unit_coordinate(v.y, m);
    let (tz, sz) = lemma_unit_coordinate(v.z, m);
    let mm = m * m;
    let oo = one * one;
    assert(mm > 0) by (nonlinear_arith)
        requires
            m > 0,
            mm == m * m,
    ;
    assert(mm * uu == mm * (u.x * u.x) + mm * (u.y * u.y) + mm * (u.z * u.z)) by (nonlinear_arith)
        requires
            uu == u.x * u.x + u.y * u.y + u.z * u.z,
    ;
    assert(oo * n == oo * (v.x * v.x) + oo * (v.y * v.y) + oo * (v.z * v.z)) by (nonlinear_arith)
        requires
            n == v.x * v.x + v.y * v.y + v.z * v.z,
    ;
    // from above
    assert(mm * uu <= oo * n);
    if m >= one {
        assert(oo * n < mm * ((one + 1) * (one + 1))) by (nonlinear_arith)
            requires
                n < (m + 1) * (m + 1),
                m >= one,
                one > 0,
                mm == m * m,
                oo == one * one,
        ;
        assert(uu < (one + 1) * (one + 1)) by (nonlinear_arith)
            requires
                mm * uu < mm * ((one + 1) * (one + 1)),
                mm > 0,
        ;
    }
    // from below
    let s = sx + sy + sz;
    assert(s * s <= 3 * n) by (nonlinear_arith)
        requires
            s == sx + sy + sz,
            sx * sx + sy * sy + sz * sz == n,
    ;
    assert(m * s <= 2 * n) by (nonlinear_arith)
        requires
            s * s <= 3 * n,
            m * m <= n,
            m > 0,
            s >= 0,
            n > 0,
    ;
    assert(m * s == m * sx + m * sy + m * sz) by (nonlinear_arith)
        requires
            s == sx + sy + sz,
    ;
    assert(2 * one * (m * s) == 2 * one * (m * sx) + 2 * one * (m * sy) + 2 * one * (m * sz))
        by (nonlinear_arith)
        requires
            m * s == m * sx + m * sy + m * sz,
    ;
    assert(mm * uu >= oo * n - 2 * one * (m * s));
    assert((oo - 4 * one) * n >= (oo - 4 * one) * mm) by (nonlinear_arith)
        requires
            n >= mm,
            oo - 4 * one >= 0,
    ;
    assert((oo - 4 * one) * n == oo * n - 4 * one * n) by (nonlinear_arith);
    assert(uu >= oo - 4 * one) by (nonlinear_arith)
        requires
            mm * uu >= (oo - 4 * one) * mm,
            mm > 0,
    ;
}

/// One coordinate of a normalized vector, times the length `m` of the
/// vector: its square lies between `ONE² c² - 2 ONE m |c|` and `ONE² c²`.
/// Returns that square and `|c|`.
proof fn lemma_unit_coordinate(c: int, m: int) -> (res: (int, int))
    requires
        m > 0,
    ensures
        res.0 == (m * m) * (quot(c * ONE, m) * quot(c * ONE, m)),
        res.1 == abs(c),
        res.1 * res.1 == c * c,
        (ONE * ONE) * (c * c) - 2 * ONE * (m * res.1) <= res.0 <= (ONE * ONE) * (c * c),
{
    let one = ONE as int;
    let q = quot(c * one, m);
    let e = c * one - m * q;
    let a = abs(c);
    lemma_quot(c * one, m);
    let t = m * q;
    assert((m * m) * (q * q) == t * t) by (nonlinear_arith)
        requires
            t == m * q,
    ;
    let w = c * one;
    assert(w * w == (one * one) * (c * c)) by (nonlinear_arith)
        requires
            w == c * one,
    ;
    assert(a * a == c * c) by (nonlinear_arith)
        requires
            a == c || a == -c,
    ;
    assert((q >= 0 ==> t >= 0) && (q <= 0 ==> t <= 0)) by (nonlinear_arith)
        requires
            t == m * q,
            m > 0,
    ;
    // t lies between zero and w, within m of w
    assert(t * t <= w * w && t * t >= w * w - 2 * (abs(w) * m)) by (nonlinear_arith)
        requires
            t == w - e,
            (w >= 0 && 0 <= e < m && e <= w) || (w <= 0 && -m < e <= 0 && e >= w),
    ;
    assert(abs(w) == one * a) by (nonlinear_arith)
        requires
            w == c * one,
            a == abs(c),
            one > 0,
    ;
    assert(2 * ((one * a) * m) == 2 * one * (m * a)) by (nonlinear_arith);
    (t * t, a)
}

/// A component of a vector of length `m` scales to at most `ONE`.
proof fn lemma_unit_component(c: int, n: int, m: int)
    requires
        0 <= c * c <= n,
        is_root(n, m),
        m > 0,
    ensures
        abs(quot(c * ONE, m)) <= ONE,
{
    assert(abs(c) <= m) by (nonlinear_arith)
        requires
            c * c <= n,
            n < (m + 1) * (m + 1),
            m > 0,
    ;
    lemma_quot(c * ONE, m);
    let q = quot(c * ONE, m);
    if c >= 0 {
        assert(q <= ONE) by (nonlinear_arith)
            requires
                m * q <= c * ONE,
                0 <= c <= m,
                m > 0,
        ;
    } else {
        assert(q >= -ONE) by (nonlinear_arith)
            requires
                m * q >= c * ONE,
                -m <= c <= 0,
                m > 0,
        ;
    }
}

/// A component that carries a third of the squared length does not scale
/// to zero.
proof fn lemma_unit_large(c: int, n: int, m: int)
    requires
        3 * (c * c) >= n,
        is_root(n, m),
        m > 0,
    ensures
        quot(c * ONE, m) != 0,
{
    assert(abs(c) * 2 >= m) by (nonlinear_arith)
        requires
            3 * (c * c) >= n,
            n >= m * m,
            m > 0,
    ;
    lemma_quot(c * ONE, m);
    let q = quot(c * ONE, m);
    if c >= 0 {
        assert(q != 0) by (nonlinear_arith)
            requires
                c * ONE - m * q < m,
                c * 2 >= m,
                m > 0,
        ;
    } else {
        assert(q != 0) by (nonlinear_arith)
            requires
                c * ONE - m * q > -m,
                -c * 2 >= m,
                m > 0,
        ;
    }
}

/// Scaling by a ratio of absolute value at most one keeps a vector within
/// its bound.
pub proof fn lemma_scaled_within(v: Vec3, num: int, den: int, m: int, k: int)
    requires
        v.within(m),
        abs(num) <= k,
        0 < k <= den,
    ensures
        v.scaled(num, den).within(m),
{
    lemma_scaled_component(v.x, num, den, m, k);
    lemma_scaled_component(v.y, num, den, m, k);
    lemma_scaled_component(v.z, num, den, m, k);
}

proof fn lemma_scaled_component(c: int, num: int, den: int, m: int, k: int)
    requires
        abs(c) <= m,
        abs(num) <= k,
        0 < k <= den,
    ensures
        abs(quot(c * num, den)) <= m,
{
    lemma_quot(c * num, den);
    let q = quot(c * num, den);
    lemma_product_bound(c, num, m, k);
    if c * num >= 0 {
        assert(q <= m) by (nonlinear_arith)
            requires
                den * q <= c * num,
                c * num <= m * k,
                0 < k <= den,
                m >= 0,
                q >= 0,
        ;
    } else {
        assert(q >= -m) by (nonlinear_arith)
            requires
                den * q >= c * num,
                c * num >= -(m * k),
                0 < k <= den,
                m >= 0,
                q <= 0,
        ;
    }
}

/// The product of two mixed products of coordinates, regrouped.
proof fn lemma_cross_pair(x1: int, y1: int, x2: int, y2: int)
    ensures
        (x1 * y1) * (x2 * y2) == (x1 * y2) * (x2 * y1),
{
    lemma_mul4(x1, y1, x2, y2);
    lemma_mul4(x1, y2, x2, y1);
    assert(y1 * y2 == y2 * y1) by (nonlinear_arith);
}

/// The identity of Lagrange, and with it the inequality of Cauchy and
/// Schwarz.
pub proof fn lemma_cauchy_schwarz(d: Vec3, w: Vec3)
    ensures
        d.norm2() * w.norm2() - d.dot(w) * d.dot(w) == d.cross(w).norm2(),
        d.dot(w) * d.dot(w) <= d.norm2() * w.norm2(),
{
    let p11 = d.x * w.x;
    let p12 = d.x * w.y;
    let p13 = d.x * w.z;
    let p21 = d.y * w.x;
    let p22 = d.y * w.y;
    let p23 = d.y * w.z;
    let p31 = d.z * w.x;
    let p32 = d.z * w.y;
    let p33 = d.z * w.z;
    let a1 = d.x * d.x;
    let a2 = d.y * d.y;
    let a3 = d.z * d.z;
    let b1 = w.x * w.x;
    let b2 = w.y * w.y;
    let b3 = w.z * w.z;
    assert((a1 + a2 + a3) * (b1 + b2 + b3) == a1 * b1 + a1 * b2 + a1 * b3 + a2 * b1 + a2 * b2 + a2
        * b3 + a3 * b1 + a3 * b2 + a3 * b3) by (nonlinear_arith);
    lemma_mul4(d.x, d.x, w.x, w.x);
    lemma_mul4(d.x, d.x, w.y, w.y);
    lemma_mul4(d.x, d.x, w.z, w.z);
    lemma_mul4(d.y, d.y, w.x, w.x);
    lemma_mul4(d.y, d.y, w.y, w.y);
    lemma_mul4(d.y, d.y, w.z, w.z);
    lemma_mul4(d.z, d.z, w.x, w.x);
    lemma_mul4(d.z, d.z, w.y, w.y);
    lemma_mul4(d.z, d.z, w.z, w.z);
    assert(d.norm2() * w.norm2() == p11 * p11 + p12 * p12 + p13 * p13 + p21 * p21 + p22 * p22 + p23
        * p23 + p31 * p31 + p32 * p32 + p33 * p33);
    assert((p11 + p22 + p33) * (p11 + p22 + p33) == p11 * p11 + p22 * p22 + p33 * p33 + 2 * (p11
        * p22) + 2 * (p11 * p33) + 2 * (p22 * p33)) by (nonlinear_arith);
    lemma_cross_pair(d.x, w.x, d.y, w.y);
    lemma_cross_pair(d.x, w.x, d.z, w.z);
    lemma_cross_pair(d.y, w.y, d.z, w.z);
    lemma_square2(p23, p32);
    lemma_square2(p13, p31);
    lemma_square2(p12, p21);
    let cx = p23 - p32;
    let cy = p13 - p31;
    let cz = p12 - p21;
    assert(d.norm2() * w.norm2() - d.dot(w) * d.dot(w) == cx * cx + cy * cy + cz * cz);
    assert((-cy) * (-cy) == cy * cy) by (nonlinear_arith);
    assert(d.cross(w).y == -cy);
    assert(cx * cx >= 0 && cy * cy >= 0 && cz * cz >= 0) by (nonlinear_arith);
}

/// A nonzero vector has a squared length of at least one.
pub proof fn lemma_nonzero_norm2(d: Vec3)
    requires
        !d.is_zero(),
    ensures
        d.norm2() >= 1,
{
    assert(d.x * d.x >= 0 && (d.x != 0 ==> d.x * d.x >= 1)) by (nonlinear_arith);
    assert(d.y * d.y >= 0 && (d.y != 0 ==> d.y * d.y >= 1)) by (nonlinear_arith);
    assert(d.z * d.z >= 0 && (d.z != 0 ==> d.z * d.z >= 1)) by (nonlinear_arith);
}

impl core::ops::Add for Vector3 {
    type Output = Vector3;

    fn add(self, rhs: Vector3) -> (res: Vector3) {
        Vector3 { x: self.x + rhs.x, y: self.y + rhs.y, z: self.z + rhs.z }
    }
}

impl vstd::std_specs::ops::AddSpecImpl for Vector3 {
    open spec fn obeys_add_spec() -> bool {
        true
    }

    open spec fn add_req(self, rhs: Vector3) -> bool {
        self.wf() && rhs.wf()
    }

    open spec fn add_spec(self, rhs: Vector3) -> Vector3 {
        Vector3 {
            x: (self.x + rhs.x) as i64,
            y: (self.y + rhs.y) as i64,
            z: (self.z + rhs.z) as i64,
        }
    }
}

impl core::ops::Sub for Vector3 {
    type Output = Vector3;

    fn sub(self, rhs: Vector3) -> (res: Vector3) {
        Vector3 { x: self.x - rhs.x, y: self.y - rhs.y, z: self.z - rhs.z }
    }
}

impl vstd::std_specs::ops::SubSpecImpl for Vector3 {
    open spec fn obeys_sub_spec() -> bool {
        true
    }

    open spec fn sub_req(self, rhs: Vector3) -> bool {
        self.wf() && rhs.wf()
    }

    open spec fn sub_spec(self, rhs: Vector3) -> Vector3 {
        Vector3 {
            x: (self.x - rhs.x) as i64,
            y: (self.y - rhs.y) as i64,
            z: (self.z - rhs.z) as i64,
        }
    }
}

impl core::ops::Neg for Vector3 {
    type Output = Vector3;

    fn neg(self) -> (res: Vector3) {
        Vector3 { x: -self.x, y: -self.y, z: -self.z }
    }
}

impl vstd::std_specs::ops::NegSpecImpl for Vector3 {
    open spec fn obeys_neg_spec() -> bool {
        true
    }

    open spec fn neg_req(self) -> bool {
        self.wf()
    }

    open spec fn neg_spec(self) -> Vector3 {
        Vector3 { x: (-self.x) as i64, y: (-self.y) as i64, z: (-self.z) as i64 }
    }
}

/// Multiplication by a fixed-point scalar of absolute value at most one.
impl core::ops::Mul<i64> for Vector3 {
    type Output = Vector3;

    fn mul(self, rhs: i64) -> (res: Vector3) {
        proof {
            lemma_scaled_within(self@, rhs as int, ONE as int, COORD_MAX as int, ONE as int);
        }
        self.scale(rhs as i128, ONE as i128)
    }
}

impl vstd::std_specs::ops::MulSpecImpl<i64> for Vector3 {
    open spec fn obeys_mul_spec() -> bool {
        true
    }

    open spec fn mul_req(self, rhs: i64) -> bool {
        self.wf() && abs(rhs as int) <= ONE
    }

    open spec fn mul_spec(self, rhs: i64) -> Vector3 {
        Vector3 {
            x: quot(self.x * rhs, ONE as int) as i64,
            y: quot(self.y * rhs, ONE as int) as i64,
            z: quot(self.z * rhs, ONE as int) as i64,
        }
    }
}

/// Division by a fixed-point scalar of at least one.
impl core::ops::Div<i64> for Vector3 {
    type Output = Vector3;

    fn div(self, rhs: i64) -> (res: Vector3) {
        proof {
            lemma_scaled_within(self@, ONE as int, rhs as int, COORD_MAX as int, ONE as int);
        }
        self.scale(ONE as i128, rhs as i128)
    }
}

impl vstd::std_specs::ops::DivSpecImpl<i64> for Vector3 {
    open spec fn obeys_div_spec() -> bool {
        true
    }

    open spec fn div_req(self, rhs: i64) -> bool {
        self.wf() && rhs >= ONE
    }

    open spec fn div_spec(self, rhs: i64) -> Vector3 {
        Vector3 {
            x: quot(self.x * ONE, rhs as int) as i64,
            y: quot(self.y * ONE, rhs as int) as i64,
            z: quot(self.z * ONE, rhs as int) as i64,
        }
    }
}

impl core::ops::AddAssign for Vector3 {
    fn add_assign(&mut self, rhs: Vector3)
        requires
            old(self).wf(),
            rhs.wf(),
        ensures
            final(self)@ == old(self)@.plus(rhs@),
    {
        *self = *self + rhs;
    }
}

impl core::ops::SubAssign for Vector3 {
    fn sub_assign(&mut self, rhs: Vector3)
        requires
            old(self).wf(),
            rhs.wf(),
        ensures
            final(self)@ == old(self)@.minus(rhs@),
    {
        *self = *self - rhs;
    }
}

impl core::ops::MulAssign<i64> for Vector3 {
    fn mul_assign(&mut self, rhs: i64)
        requires
            old(self).wf(),
            abs(rhs as int) <= ONE,
        ensures
            final(self)@ == old(self)@.scaled(rhs as int, ONE as int),
    {
        proof {
            lemma_scaled_within(self@, rhs as int, ONE as int, COORD_MAX as int, ONE as int);
        }
        *self = self.scale(rhs as i128, ONE as i128);
    }
}

impl core::ops::DivAssign<i64> for Vector3 {
    fn div_assign(&mut self, rhs: i64)
        requires
            old(self).wf(),
            rhs >= ONE,
        ensures
            final(self)@ == old(self)@.scaled(ONE as int, rhs as int),
    {
        proof {
            lemma_scaled_within(self@, ONE as int, rhs as int, COORD_MAX as int, ONE as int);
        }
        *self = self.scale(ONE as i128, rhs as i128);
    }
}

} // verus!
