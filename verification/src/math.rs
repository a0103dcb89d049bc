//! Three-component vectors over fixed-point scalars.
use vstd::prelude::*;
use std::ops::{Add, AddAssign, Div, DivAssign, Mul, MulAssign, Sub, SubAssign};
use crate::fixed::{fits, product, product_spec, quotient, quotient_spec, lemma_product_bound, lemma_quot_bounds, lemma_quot_one, lemma_root_exists, magnitude, quot,
    root, root_spec, root_up, root_up_spec, wide_product, wide_quot, LIMIT, ONE};

verus! {

/// The mathematical vector that a [`Vec3`] stands for, in raw units.
pub struct Vector {
    pub x: int,
    pub y: int,
    pub z: int,
}

impl Vector {
    /// Whether every component has magnitude at most `bound`.
    pub open spec fn within(self, bound: int) -> bool {
        &&& -bound <= self.x <= bound
        &&& -bound <= self.y <= bound
        &&& -bound <= self.z <= bound
    }

    /// Whether every component can be held in a scalar.
    pub open spec fn fits(self) -> bool {
        fits(self.x) && fits(self.y) && fits(self.z)
    }

    /// Componentwise sum.
    pub open spec fn plus(self, rhs: Vector) -> Vector {
        Vector { x: self.x + rhs.x, y: self.y + rhs.y, z: self.z + rhs.z }
    }

    /// Componentwise difference.
    pub open spec fn minus(self, rhs: Vector) -> Vector {
        Vector { x: self.x - rhs.x, y: self.y - rhs.y, z: self.z - rhs.z }
    }

    /// Every component multiplied by the fixed-point scalar `s`.
    pub open spec fn scaled(self, s: int) -> Vector {
        Vector { x: quot(self.x * s, ONE as int), y: quot(self.y * s, ONE as int), z: quot(self.z * s, ONE as int) }
    }

    /// Every component divided by the fixed-point scalar `s`.
    pub open spec fn divided(self, s: int) -> Vector {
        Vector { x: quot(self.x * ONE, s), y: quot(self.y * ONE, s), z: quot(self.z * ONE, s) }
    }

    /// Componentwise absolute value.
    pub open spec fn abs(self) -> Vector {
        Vector { x: magnitude(self.x), y: magnitude(self.y), z: magnitude(self.z) }
    }

    /// Every component capped from above by `arg`.
    pub open spec fn min(self, arg: int) -> Vector {
        Vector {
            x: if self.x <= arg { self.x } else { arg },
            y: if self.y <= arg { self.y } else { arg },
            z: if self.z <= arg { self.z } else { arg },
        }
    }

    /// Every component capped from below by `arg`.
    pub open spec fn max(self, arg: int) -> Vector {
        Vector {
            x: if self.x >= arg { self.x } else { arg },
            y: if self.y >= arg { self.y } else { arg },
            z: if self.z >= arg { self.z } else { arg },
        }
    }

    /// Sum of the componentwise products, before scaling back by `ONE`.
    pub open spec fn inner(self, rhs: Vector) -> int {
        self.x * rhs.x + self.y * rhs.y + self.z * rhs.z
    }

    /// Fixed-point dot product.
    pub open spec fn dot(self, rhs: Vector) -> int {
        quot(self.inner(rhs), ONE as int)
    }

    /// Fixed-point cross product.
    pub open spec fn cross(self, rhs: Vector) -> Vector {
        Vector {
            x: quot(self.y * rhs.z - self.z * rhs.y, ONE as int),
            y: quot(self.z * rhs.x - self.x * rhs.z, ONE as int),
            z: quot(self.x * rhs.y - self.y * rhs.x, ONE as int),
        }
    }

    /// Square of the Euclidean length, in squared raw units.
    pub open spec fn norm2(self) -> nat {
        (self.x * self.x + self.y * self.y + self.z * self.z) as nat
    }

    /// Euclidean length, rounded down to a raw unit.
    pub open spec fn length(self) -> int {
        root_spec(self.norm2()) as int
    }

    /// Euclidean length, rounded up to a raw unit.
    pub open spec fn length_up(self) -> int {
        root_up_spec(self.norm2()) as int
    }

    /// Fixed-point square of the Euclidean length.
    pub open spec fn squared_length(self) -> int {
        self.norm2() as int / (ONE as int)
    }

    /// The vector divided by its length rounded up, so that the result is
    /// never longer than one.
    pub open spec fn unit(self) -> Vector {
        self.divided(self.length_up())
    }

    /// The unit vector, or the zero vector where there is no direction.
    pub open spec fn unit_or_zero(self) -> Vector {
        if self.norm2() == 0 {
            Vector { x: 0, y: 0, z: 0 }
        } else {
            self.unit()
        }
    }
}

/// A vector of three fixed-point scalars.
#[derive(Clone, Copy, Debug, PartialEq, Eq, Structural)]
pub struct Vec3 {
    pub x: i64,
    pub y: i64,
    pub z: i64,
}

impl View for Vec3 {
    type V = Vector;

    open spec fn view(&self) -> Vector {
        Vector { x: self.x as int, y: self.y as int, z: self.z as int }
    }
}

/// Sums of products of components within `LIMIT` stay far inside the wide
/// integers.
pub proof fn lemma_inner_bound(a: Vector, b: Vector)
    requires
        a.within(LIMIT as int),
        b.within(LIMIT as int),
    ensures
        -3_000_000_000_000_000_000_000_000 <= a.inner(b) <= 3_000_000_000_000_000_000_000_000,
        -1_000_000_000_000_000_000_000_000 <= a.x * b.x <= 1_000_000_000_000_000_000_000_000,
        -1_000_000_000_000_000_000_000_000 <= a.y * b.y <= 1_000_000_000_000_000_000_000_000,
        -1_000_000_000_000_000_000_000_000 <= a.z * b.z <= 1_000_000_000_000_000_000_000_000,
        -2_000_000_000_000_000_000_000_000 <= a.y * b.z - a.z * b.y <= 2_000_000_000_000_000_000_000_000,
        -2_000_000_000_000_000_000_000_000 <= a.z * b.x - a.x * b.z <= 2_000_000_000_000_000_000_000_000,
        -2_000_000_000_000_000_000_000_000 <= a.x * b.y - a.y * b.x <= 2_000_000_000_000_000_000_000_000,
{
    let m = LIMIT as int;
    assert(m * m == 1_000_000_000_000_000_000_000_000) by (nonlinear_arith)
        requires
            m == 1_000_000_000_000,
    ;
    lemma_product_bound(a.x, b.x, m, m);
    lemma_product_bound(a.y, b.y, m, m);
    lemma_product_bound(a.z, b.z, m, m);
    lemma_product_bound(a.y, b.z, m, m);
    lemma_product_bound(a.z, b.y, m, m);
    lemma_product_bound(a.z, b.x, m, m);
    lemma_product_bound(a.x, b.z, m, m);
    lemma_product_bound(a.x, b.y, m, m);
    lemma_product_bound(a.y, b.x, m, m);
}

/// The length of a vector is at least the magnitude of each component, and
/// the length of a vector within `bound` is at most twice `bound`.
pub proof fn lemma_length_bounds(v: Vector, bound: int)
    requires
        v.within(bound),
    ensures
        v.inner(v) == v.norm2(),
        magnitude(v.x) <= v.length() <= v.length_up(),
        magnitude(v.y) <= v.length(),
        magnitude(v.z) <= v.length(),
        v.length_up() <= v.length() + 1,
        v.length_up() <= 2 * bound,
        v.length() * v.length() <= v.norm2() <= v.length_up() * v.length_up(),
        v.norm2() == 0 <==> v.length_up() == 0,
        v.norm2() == 0 <==> (v.x == 0 && v.y == 0 && v.z == 0),
{
    let n = v.norm2();
    let r = root_spec(n);
    lemma_root_exists(n);
    let mx = magnitude(v.x);
    let my = magnitude(v.y);
    let mz = magnitude(v.z);
    assert(mx * mx == v.x * v.x && my * my == v.y * v.y && mz * mz == v.z * v.z) by (nonlinear_arith)
        requires
            mx == magnitude(v.x),
            my == magnitude(v.y),
            mz == magnitude(v.z),
    ;
    assert(mx * mx >= 0 && my * my >= 0 && mz * mz >= 0) by (nonlinear_arith);
    assert((mx == 0) <==> (mx * mx == 0)) by (nonlinear_arith);
    assert((my == 0) <==> (my * my == 0)) by (nonlinear_arith);
    assert((mz == 0) <==> (mz * mz == 0)) by (nonlinear_arith);
    assert(n == mx * mx + my * my + mz * mz);
    assert(mx <= r) by (nonlinear_arith)
        requires
            mx * mx <= n < (r + 1) * (r + 1),
            mx >= 0,
    ;
    assert(my <= r) by (nonlinear_arith)
        requires
            my * my <= n < (r + 1) * (r + 1),
            my >= 0,
    ;
    assert(mz <= r) by (nonlinear_arith)
        requires
            mz * mz <= n < (r + 1) * (r + 1),
            mz >= 0,
    ;
    assert(mx * mx <= bound * bound && my * my <= bound * bound && mz * mz <= bound * bound)
        by (nonlinear_arith)
        requires
            0 <= mx <= bound,
            0 <= my <= bound,
            0 <= mz <= bound,
    ;
    assert(r < 2 * bound || bound == 0) by (nonlinear_arith)
        requires
            r * r <= n <= 3 * (bound * bound),
            bound >= 0,
            r >= 0,
    ;
    assert((r == 0) <==> (r * r == 0)) by (nonlinear_arith);
    assert(n < 1 ==> r == 0) by (nonlinear_arith)
        requires
            r * r <= n,
            r >= 0,
    ;
    assert(n >= 1 ==> r >= 1) by (nonlinear_arith)
        requires
            n < (r + 1) * (r + 1),
            r >= 0,
    ;
}

impl Vec3 {
    /// A vector from its three components.
    pub fn new(x: i64, y: i64, z: i64) -> (r: Vec3)
        ensures
            r == (Vec3 { x, y, z }),
    {
        Vec3 { x, y, z }
    }

    /// The zero vector.
    pub fn zero() -> (r: Vec3)
        ensures
            r == (Vec3 { x: 0, y: 0, z: 0 }),
    {
        Vec3 { x: 0, y: 0, z: 0 }
    }

    /// Componentwise absolute value.
    pub fn abs(&self) -> (r: Vec3)
        requires
            self@.abs().fits(),
        ensures
            r@ == self@.abs(),
    {
        Vec3 {
            x: if self.x < 0 { -self.x } else { self.x },
            y: if self.y < 0 { -self.y } else { self.y },
            z: if self.z < 0 { -self.z } else { self.z },
        }
    }

    /// Every component capped from above by `arg`.
    pub fn min(&self, arg: i64) -> (r: Vec3)
        ensures
            r@ == self@.min(arg as int),
    {
        Vec3 {
            x: if self.x <= arg { self.x } else { arg },
            y: if self.y <= arg { self.y } else { arg },
            z: if self.z <= arg { self.z } else { arg },
        }
    }

    /// Every component capped from below by `arg`.
    pub fn max(&self, arg: i64) -> (r: Vec3)
        ensures
            r@ == self@.max(arg as int),
    {
        Vec3 {
            x: if self.x >= arg { self.x } else { arg },
            y: if self.y >= arg { self.y } else { arg },
            z: if self.z >= arg { self.z } else { arg },
        }
    }

    /// Fixed-point cross product.
    pub fn cross(self, rhs: Vec3) -> (r: Vec3)
        requires
            self@.within(LIMIT as int),
            rhs@.within(LIMIT as int),
        ensures
            r@ == self@.cross(rhs@),
    {
        proof {
            lemma_inner_bound(self@, rhs@);
        }
        let x: i128 = wide_product(self.y, rhs.z) - wide_product(self.z, rhs.y);
        let y: i128 = wide_product(self.z, rhs.x) - wide_product(self.x, rhs.z);
        let z: i128 = wide_product(self.x, rhs.y) - wide_product(self.y, rhs.x);
        proof {
            lemma_quot_one(x as int, 2_000_000_000_000_000_000);
            lemma_quot_one(y as int, 2_000_000_000_000_000_000);
            lemma_quot_one(z as int, 2_000_000_000_000_000_000);
        }
        Vec3 {
            x: wide_quot(x, 1_000_000) as i64,
            y: wide_quot(y, 1_000_000) as i64,
            z: wide_quot(z, 1_000_000) as i64,
        }
    }

    /// Sum of the componentwise products, as a wide integer.
    fn inner(self, rhs: Vec3) -> (r: i128)
        requires
            self@.within(LIMIT as int),
            rhs@.within(LIMIT as int),
        ensures
            r == self@.inner(rhs@),
            -3_000_000_000_000_000_000_000_000 <= r <= 3_000_000_000_000_000_000_000_000,
    {
        proof {
            lemma_inner_bound(self@, rhs@);
        }
        wide_product(self.x, rhs.x) + wide_product(self.y, rhs.y) + wide_product(self.z, rhs.z)
    }

    /// Fixed-point dot product.
    pub fn dot(self, rhs: Vec3) -> (r: i64)
        requires
            self@.within(LIMIT as int),
            rhs@.within(LIMIT as int),
        ensures
            r == self@.dot(rhs@),
    {
        let s: i128 = self.inner(rhs);
        proof {
            lemma_quot_one(s as int, 3_000_000_000_000_000_000);
        }
        wide_quot(s, 1_000_000) as i64
    }

    /// Euclidean length, rounded down.
    pub fn length(self) -> (r: i64)
        requires
            self@.within(LIMIT as int),
        ensures
            r == self@.length(),
            0 <= r <= 2 * LIMIT,
    {
        let s: i128 = self.inner(self);
        proof {
            lemma_length_bounds(self@, LIMIT as int);
        }
        root(s as u128) as i64
    }

    /// Fixed-point square of the Euclidean length.
    pub fn squared_length(self) -> (r: i64)
        requires
            self@.within(LIMIT as int),
        ensures
            r == self@.squared_length(),
    {
        let s: i128 = self.inner(self);
        proof {
            lemma_length_bounds(self@, LIMIT as int);
        }
        (s / 1_000_000) as i64
    }

    /// The vector scaled to unit length.
    pub fn normalize(self) -> (r: Vec3)
        requires
            self@.within(LIMIT as int),
            self@.norm2() > 0,
        ensures
            r@ == self@.unit(),
            r@.within(ONE as int),
            0 < r@.norm2() <= ONE * ONE,
    {
        let s: i128 = self.inner(self);
        proof {
            lemma_length_bounds(self@, LIMIT as int);
            lemma_unit_norm(self@);
            lemma_unit_nonzero(self@);
        }
        let len: i128 = root_up(s as u128) as i128;
        let x: i128 = wide_product(self.x, 1_000_000);
        let y: i128 = wide_product(self.y, 1_000_000);
        let z: i128 = wide_product(self.z, 1_000_000);
        proof {
            lemma_unit_component(self.x as int, len as int);
            lemma_unit_component(self.y as int, len as int);
            lemma_unit_component(self.z as int, len as int);
        }
        Vec3 { x: wide_quot(x, len) as i64, y: wide_quot(y, len) as i64, z: wide_quot(z, len) as i64 }
    }

    /// The vector scaled to unit length, or the zero vector if it has no
    /// direction.
    pub fn normalize_or_zero(self) -> (r: Vec3)
        requires
            self@.within(LIMIT as int),
        ensures
            r@ == self@.unit_or_zero(),
            r@.within(ONE as int),
            r@.norm2() <= ONE * ONE,
            self@.norm2() > 0 ==> r@.norm2() > 0,
    {
        proof {
            lemma_length_bounds(self@, LIMIT as int);
            assert(0 <= ONE * ONE) by (nonlinear_arith);
        }
        if self.x == 0 && self.y == 0 && self.z == 0 {
            Vec3 { x: 0, y: 0, z: 0 }
        } else {
            self.normalize()
        }
    }
}

/// A vector within `m`, scaled by a factor of magnitude at most `n`, stays
/// within any `b` that is at least `m * n / ONE`.
pub proof fn lemma_scaled_bound(a: Vector, s: int, m: int, n: int, b: int)
    requires
        a.within(m),
        -n <= s <= n,
        m * n <= b * 1_000_000,
    ensures
        a.scaled(s).within(b),
{
    lemma_product_bound(a.x, s, m, n);
    lemma_product_bound(a.y, s, m, n);
    lemma_product_bound(a.z, s, m, n);
    crate::fixed::lemma_quot_one(a.x * s, b);
    crate::fixed::lemma_quot_one(a.y * s, b);
    crate::fixed::lemma_quot_one(a.z * s, b);
}

/// The cross product of a vector within `m` and one within `n` stays within
/// any `b` that is at least `2 * m * n / ONE`.
pub proof fn lemma_cross_bound(a: Vector, c: Vector, m: int, n: int, b: int)
    requires
        a.within(m),
        c.within(n),
        2 * (m * n) <= b * 1_000_000,
    ensures
        a.cross(c).within(b),
{
    lemma_product_bound(a.y, c.z, m, n);
    lemma_product_bound(a.z, c.y, m, n);
    lemma_product_bound(a.z, c.x, m, n);
    lemma_product_bound(a.x, c.z, m, n);
    lemma_product_bound(a.x, c.y, m, n);
    lemma_product_bound(a.y, c.x, m, n);
    crate::fixed::lemma_quot_one(a.y * c.z - a.z * c.y, b);
    crate::fixed::lemma_quot_one(a.z * c.x - a.x * c.z, b);
    crate::fixed::lemma_quot_one(a.x * c.y - a.y * c.x, b);
}

/// A component divided by a length that is at least its magnitude is at most
/// one.
pub proof fn lemma_unit_component(c: int, len: int)
    requires
        magnitude(c) <= len,
        len > 0,
    ensures
        -ONE <= quot(c * ONE, len) <= ONE,
{
    lemma_quot_bounds(c * ONE, len);
    let q = magnitude(quot(c * ONE, len));
    let m = magnitude(c);
    assert(magnitude(c * ONE) == m * ONE) by (nonlinear_arith)
        requires
            m == magnitude(c),
    ;
    assert(q <= ONE) by (nonlinear_arith)
        requires
            q * len <= m * ONE,
            m <= len,
            len > 0,
            q >= 0,
    ;
}

impl Default for Vec3 {
    fn default() -> (r: Vec3)
        ensures
            r == (Vec3 { x: 0, y: 0, z: 0 }),
    {
        Vec3 { x: 0, y: 0, z: 0 }
    }
}

impl From<i64> for Vec3 {
    /// The vector whose three components all equal `arg`.
    fn from(arg: i64) -> (r: Vec3) {
        Vec3 { x: arg, y: arg, z: arg }
    }
}

impl vstd::std_specs::convert::FromSpecImpl<i64> for Vec3 {
    open spec fn obeys_from_spec() -> bool {
        true
    }

    open spec fn from_spec(arg: i64) -> Vec3 {
        Vec3 { x: arg, y: arg, z: arg }
    }
}

impl Add<Vec3> for Vec3 {
    type Output = Vec3;

    fn add(self, rhs: Vec3) -> (r: Vec3)
        ensures
            r@ == self@.plus(rhs@),
    {
        Vec3 { x: self.x + rhs.x, y: self.y + rhs.y, z: self.z + rhs.z }
    }
}

impl vstd::std_specs::ops::AddSpecImpl<Vec3> for Vec3 {
    open spec fn obeys_add_spec() -> bool {
        true
    }

    open spec fn add_req(self, rhs: Vec3) -> bool {
        self@.plus(rhs@).fits()
    }

    open spec fn add_spec(self, rhs: Vec3) -> Vec3 {
        Vec3 { x: (self.x + rhs.x) as i64, y: (self.y + rhs.y) as i64, z: (self.z + rhs.z) as i64 }
    }
}

impl Sub<Vec3> for Vec3 {
    type Output = Vec3;

    fn sub(self, rhs: Vec3) -> (r: Vec3)
        ensures
            r@ == self@.minus(rhs@),
    {
        Vec3 { x: self.x - rhs.x, y: self.y - rhs.y, z: self.z - rhs.z }
    }
}

impl vstd::std_specs::ops::SubSpecImpl<Vec3> for Vec3 {
    open spec fn obeys_sub_spec() -> bool {
        true
    }

    open spec fn sub_req(self, rhs: Vec3) -> bool {
        self@.minus(rhs@).fits()
    }

    open spec fn sub_spec(self, rhs: Vec3) -> Vec3 {
        Vec3 { x: (self.x - rhs.x) as i64, y: (self.y - rhs.y) as i64, z: (self.z - rhs.z) as i64 }
    }
}

impl Mul<i64> for Vec3 {
    type Output = Vec3;

    fn mul(self, arg: i64) -> (r: Vec3)
        ensures
            r@ == self@.scaled(arg as int),
    {
        Vec3 { x: product(self.x, arg), y: product(self.y, arg), z: product(self.z, arg) }
    }
}

impl vstd::std_specs::ops::MulSpecImpl<i64> for Vec3 {
    open spec fn obeys_mul_spec() -> bool {
        true
    }

    open spec fn mul_req(self, arg: i64) -> bool {
        self@.scaled(arg as int).fits()
    }

    open spec fn mul_spec(self, arg: i64) -> Vec3 {
        Vec3 {
            x: product_spec(self.x as int, arg as int) as i64,
            y: product_spec(self.y as int, arg as int) as i64,
            z: product_spec(self.z as int, arg as int) as i64,
        }
    }
}

impl Mul<Vec3> for i64 {
    type Output = Vec3;

    fn mul(self, arg: Vec3) -> (r: Vec3)
        ensures
            r@ == arg@.scaled(self as int),
    {
        arg * self
    }
}

impl vstd::std_specs::ops::MulSpecImpl<Vec3> for i64 {
    open spec fn obeys_mul_spec() -> bool {
        true
    }

    open spec fn mul_req(self, arg: Vec3) -> bool {
        arg@.scaled(self as int).fits()
    }

    open spec fn mul_spec(self, arg: Vec3) -> Vec3 {
        Vec3 {
            x: product_spec(arg.x as int, self as int) as i64,
            y: product_spec(arg.y as int, self as int) as i64,
            z: product_spec(arg.z as int, self as int) as i64,
        }
    }
}

impl Div<i64> for Vec3 {
    type Output = Vec3;

    fn div(self, arg: i64) -> (r: Vec3)
        ensures
            r@ == self@.divided(arg as int),
    {
        Vec3 { x: quotient(self.x, arg), y: quotient(self.y, arg), z: quotient(self.z, arg) }
    }
}

impl vstd::std_specs::ops::DivSpecImpl<i64> for Vec3 {
    open spec fn obeys_div_spec() -> bool {
        true
    }

    open spec fn div_req(self, arg: i64) -> bool {
        arg != 0 && self@.divided(arg as int).fits()
    }

    open spec fn div_spec(self, arg: i64) -> Vec3 {
        Vec3 {
            x: quotient_spec(self.x as int, arg as int) as i64,
            y: quotient_spec(self.y as int, arg as int) as i64,
            z: quotient_spec(self.z as int, arg as int) as i64,
        }
    }
}

impl AddAssign<Vec3> for Vec3 {
    fn add_assign(&mut self, rhs: Vec3)
        requires
            old(self)@.plus(rhs@).fits(),
        ensures
            final(self)@ == old(self)@.plus(rhs@),
    {
        *self = *self + rhs;
    }
}

impl SubAssign<Vec3> for Vec3 {
    fn sub_assign(&mut self, rhs: Vec3)
        requires
            old(self)@.minus(rhs@).fits(),
        ensures
            final(self)@ == old(self)@.minus(rhs@),
    {
        *self = *self - rhs;
    }
}

impl MulAssign<i64> for Vec3 {
    fn mul_assign(&mut self, rhs: i64)
        requires
            old(self)@.scaled(rhs as int).fits(),
        ensures
            final(self)@ == old(self)@.scaled(rhs as int),
    {
        *self = *self * rhs;
    }
}

impl DivAssign<i64> for Vec3 {
    fn div_assign(&mut self, rhs: i64)
        requires
            rhs != 0,
            old(self)@.divided(rhs as int).fits(),
        ensures
            final(self)@ == old(self)@.divided(rhs as int),
    {
        *self = *self / rhs;
    }
}


/// Where each component of `w` is the matching component of `v` times `num`
/// over `den`, rounded toward zero, `w` is no longer than `v` times `num`
/// over `den`.
pub proof fn lemma_ratio_norm(v: Vector, num: int, den: int, w: Vector)
    requires
        den != 0,
        w.x == quot(v.x * num, den),
        w.y == quot(v.y * num, den),
        w.z == quot(v.z * num, den),
    ensures
        w.norm2() * (den * den) <= v.norm2() * (num * num),
{
    lemma_ratio_square(v.x, num, den);
    lemma_ratio_square(v.y, num, den);
    lemma_ratio_square(v.z, num, den);
    let d = den * den;
    let n = num * num;
    assert(w.x * w.x >= 0 && w.y * w.y >= 0 && w.z * w.z >= 0 && v.x * v.x >= 0 && v.y * v.y >= 0
        && v.z * v.z >= 0) by (nonlinear_arith);
    assert((w.x * w.x + w.y * w.y + w.z * w.z) * d == (w.x * w.x) * d + (w.y * w.y) * d + (w.z * w.z)
        * d) by (nonlinear_arith);
    assert((v.x * v.x + v.y * v.y + v.z * v.z) * n == (v.x * v.x) * n + (v.y * v.y) * n + (v.z * v.z)
        * n) by (nonlinear_arith);
}

/// The square of a quotient rounded toward zero, times the square of the
/// divisor, does not pass the square of the numerator.
pub proof fn lemma_ratio_square(c: int, num: int, den: int)
    requires
        den != 0,
    ensures
        (quot(c * num, den) * quot(c * num, den)) * (den * den) <= (c * c) * (num * num),
{
    let q = quot(c * num, den);
    lemma_quot_bounds(c * num, den);
    let qm = magnitude(q);
    let dm = magnitude(den);
    let nm = magnitude(c * num);
    assert(qm * dm <= nm);
    assert((qm * dm) * (qm * dm) <= nm * nm) by (nonlinear_arith)
        requires
            0 <= qm * dm <= nm,
    ;
    assert((qm * dm) * (qm * dm) == (q * q) * (den * den)) by (nonlinear_arith)
        requires
            qm == magnitude(q),
            dm == magnitude(den),
    ;
    assert(nm * nm == (c * c) * (num * num)) by (nonlinear_arith)
        requires
            nm == magnitude(c * num),
    ;
}

/// A unit vector is never longer than one.
pub proof fn lemma_unit_norm(v: Vector)
    requires
        v.norm2() > 0,
    ensures
        v.unit().norm2() <= ONE * ONE,
{
    let len = v.length_up();
    let w = v.unit();
    let m = magnitude(v.x) + magnitude(v.y) + magnitude(v.z);
    lemma_length_bounds(v, m);
    lemma_ratio_norm(v, ONE as int, len, w);
    let a = v.norm2() as int;
    let n = w.norm2() as int;
    let one2 = ONE * ONE;
    let len2 = len * len;
    assert(n <= one2) by (nonlinear_arith)
        requires
            n * len2 <= a * one2,
            a <= len2,
            len2 > 0,
            one2 >= 0,
            n >= 0,
    ;
}

/// A vector no longer than one, scaled by a distance, is no longer than the
/// distance.
pub proof fn lemma_step_norm(dir: Vector, d: int)
    requires
        dir.norm2() <= ONE * ONE,
    ensures
        dir.scaled(d).norm2() <= d * d,
{
    let w = dir.scaled(d);
    lemma_ratio_norm(dir, d, ONE as int, w);
    let a = dir.norm2() as int;
    let n = w.norm2() as int;
    let one2 = ONE * ONE;
    let d2 = d * d;
    assert(one2 == 1_000_000_000_000) by (nonlinear_arith)
        requires
            one2 == ONE * ONE,
    ;
    assert(d2 >= 0) by (nonlinear_arith)
        requires
            d2 == d * d,
    ;
    assert(n <= d2) by (nonlinear_arith)
        requires
            n * one2 <= a * d2,
            a <= one2,
            one2 > 0,
            d2 >= 0,
            n >= 0,
    ;
}

/// Four factors may be paired either way.
pub proof fn lemma_pairing(a: int, b: int, c: int, d: int)
    by (nonlinear_arith)
    ensures
        (a * b) * (c * d) == (a * c) * (b * d),
        (a * b) * (c * d) == (a * d) * (c * b),
{
}

/// The product of two sums of three terms is the sum of the nine products.
pub proof fn lemma_nine_products(x1: int, x2: int, x3: int, y1: int, y2: int, y3: int)
    by (nonlinear_arith)
    ensures
        (x1 + x2 + x3) * (y1 + y2 + y3) == x1 * y1 + x1 * y2 + x1 * y3 + x2 * y1 + x2 * y2 + x2 * y3
            + x3 * y1 + x3 * y2 + x3 * y3,
{
}

/// The square of a difference.
pub proof fn lemma_square_of_difference(x: int, y: int)
    by (nonlinear_arith)
    ensures
        (x - y) * (x - y) == x * x - 2 * (x * y) + y * y,
        (x - y) * (x - y) >= 0,
{
}

/// The inequality of Cauchy and Schwarz: the square of the sum of products
/// does not pass the product of the squared lengths.
pub proof fn lemma_inner_square(a: Vector, b: Vector)
    ensures
        a.inner(b) * a.inner(b) <= a.norm2() * b.norm2(),
{
    let p11 = a.x * b.x;
    let p12 = a.x * b.y;
    let p13 = a.x * b.z;
    let p21 = a.y * b.x;
    let p22 = a.y * b.y;
    let p23 = a.y * b.z;
    let p31 = a.z * b.x;
    let p32 = a.z * b.y;
    let p33 = a.z * b.z;
    let aa = a.x * a.x + a.y * a.y + a.z * a.z;
    let bb = b.x * b.x + b.y * b.y + b.z * b.z;
    let ab = p11 + p22 + p33;
    lemma_nine_products(a.x * a.x, a.y * a.y, a.z * a.z, b.x * b.x, b.y * b.y, b.z * b.z);
    lemma_pairing(a.x, a.x, b.x, b.x);
    lemma_pairing(a.x, a.x, b.y, b.y);
    lemma_pairing(a.x, a.x, b.z, b.z);
    lemma_pairing(a.y, a.y, b.x, b.x);
    lemma_pairing(a.y, a.y, b.y, b.y);
    lemma_pairing(a.y, a.y, b.z, b.z);
    lemma_pairing(a.z, a.z, b.x, b.x);
    lemma_pairing(a.z, a.z, b.y, b.y);
    lemma_pairing(a.z, a.z, b.z, b.z);
    assert(aa * bb == p11 * p11 + p12 * p12 + p13 * p13 + p21 * p21 + p22 * p22 + p23 * p23 + p31
        * p31 + p32 * p32 + p33 * p33);
    lemma_nine_products(p11, p22, p33, p11, p22, p33);
    lemma_pairing(a.x, b.x, a.y, b.y);
    lemma_pairing(a.x, b.x, a.z, b.z);
    lemma_pairing(a.y, b.y, a.z, b.z);
    assert(p11 * p22 == p12 * p21);
    assert(p11 * p33 == p13 * p31);
    assert(p22 * p33 == p23 * p32);
    assert(p22 * p11 == p11 * p22 && p33 * p11 == p11 * p33 && p33 * p22 == p22 * p33)
        by (nonlinear_arith);
    lemma_square_of_difference(p23, p32);
    lemma_square_of_difference(p31, p13);
    lemma_square_of_difference(p12, p21);
    assert(p31 * p13 == p13 * p31) by (nonlinear_arith);
    assert(aa * bb - ab * ab == (p23 - p32) * (p23 - p32) + (p31 - p13) * (p31 - p13) + (p12 - p21)
        * (p12 - p21));
    assert(a.x * a.x >= 0 && a.y * a.y >= 0 && a.z * a.z >= 0 && b.x * b.x >= 0 && b.y * b.y >= 0
        && b.z * b.z >= 0) by (nonlinear_arith);
}

/// The squared length of a sum.
pub proof fn lemma_norm_of_sum(a: Vector, b: Vector)
    ensures
        a.plus(b).norm2() == a.norm2() + 2 * a.inner(b) + b.norm2(),
{
    let s = a.plus(b);
    assert(s.x * s.x == a.x * a.x + 2 * (a.x * b.x) + b.x * b.x) by (nonlinear_arith)
        requires
            s.x == a.x + b.x,
    ;
    assert(s.y * s.y == a.y * a.y + 2 * (a.y * b.y) + b.y * b.y) by (nonlinear_arith)
        requires
            s.y == a.y + b.y,
    ;
    assert(s.z * s.z == a.z * a.z + 2 * (a.z * b.z) + b.z * b.z) by (nonlinear_arith)
        requires
            s.z == a.z + b.z,
    ;
    assert(a.x * a.x >= 0 && a.y * a.y >= 0 && a.z * a.z >= 0 && b.x * b.x >= 0 && b.y * b.y >= 0
        && b.z * b.z >= 0 && s.x * s.x >= 0 && s.y * s.y >= 0 && s.z * s.z >= 0) by (nonlinear_arith);
}

/// The triangle inequality, from below: a vector at least `far` long, moved
/// by a vector at most `near` long, is at least `far - near` long.
pub proof fn lemma_moved_length(a: Vector, b: Vector, far: int, near: int)
    requires
        0 <= near <= far,
        far <= a.length(),
        b.norm2() <= near * near,
    ensures
        far - near <= a.plus(b).length(),
{
    let aa = a.norm2() as int;
    let bb = b.norm2() as int;
    let c = a.inner(b);
    let r = far - near;
    let rr = r * r;
    let m = magnitude(a.x) + magnitude(a.y) + magnitude(a.z);
    lemma_length_bounds(a, m);
    lemma_inner_square(a, b);
    lemma_norm_of_sum(a, b);
    let len = a.length();
    assert(far * far <= aa) by (nonlinear_arith)
        requires
            0 <= far <= len,
            len * len <= aa,
    ;
    let x = aa - bb - rr;
    let y = 2 * r * near;
    assert(x >= y && y >= 0) by (nonlinear_arith)
        requires
            x == aa - bb - rr,
            y == 2 * r * near,
            rr == r * r,
            r == far - near,
            far * far <= aa,
            0 <= bb <= near * near,
            0 <= near <= far,
    ;
    assert(x * x >= 4 * (bb * rr)) by (nonlinear_arith)
        requires
            x >= y,
            y >= 0,
            y == 2 * r * near,
            rr == r * r,
            0 <= bb <= near * near,
            r >= 0,
            near >= 0,
    ;
    let s = aa + bb - rr;
    assert(s * s - 4 * (aa * bb) == x * x - 4 * (bb * rr)) by (nonlinear_arith)
        requires
            s == aa + bb - rr,
            x == aa - bb - rr,
    ;
    assert(s >= 0);
    assert(aa + 2 * c + bb >= rr) by (nonlinear_arith)
        requires
            s == aa + bb - rr,
            s >= 0,
            s * s >= 4 * (aa * bb),
            c * c <= aa * bb,
    ;
    let sum = a.plus(b).norm2();
    assert(rr <= sum);
    assert(rr >= 0) by (nonlinear_arith)
        requires
            rr == r * r,
    ;
    crate::fixed::lemma_root_monotonic(rr as nat, sum);
    crate::fixed::lemma_root_of_square(r as nat);
}

/// A component that makes up at least `a / b` of the length keeps more than
/// that share of one after the division by the length, less one raw unit.
pub proof fn lemma_unit_component_lower(c: int, len: int, a: int, b: int)
    requires
        len > 0,
        a >= 0,
        b > 0,
        a * len <= magnitude(c) * b,
    ensures
        (magnitude(quot(c * ONE, len)) + 1) * b > a * ONE,
{
    lemma_quot_bounds(c * ONE, len);
    let q = magnitude(quot(c * ONE, len));
    let m = magnitude(c);
    assert(magnitude(c * ONE) == m * 1_000_000);
    assert((q + 1) * b > a * 1_000_000) by (nonlinear_arith)
        requires
            m * 1_000_000 < (q + 1) * len,
            a * len <= m * b,
            len > 0,
            b > 0,
            a >= 0,
            q >= 0,
            m >= 0,
    ;
}

/// A vector with a nonzero component is not the zero vector.
pub proof fn lemma_nonzero(v: Vector)
    requires
        v.x != 0 || v.y != 0 || v.z != 0,
    ensures
        v.norm2() > 0,
{
    lemma_length_bounds(v, magnitude(v.x) + magnitude(v.y) + magnitude(v.z));
}

/// The unit vector of a vector that is not zero is not zero: its largest
/// component is at least half of one.
pub proof fn lemma_unit_nonzero(v: Vector)
    requires
        v.norm2() > 0,
    ensures
        v.unit().norm2() > 0,
{
    let mx = magnitude(v.x);
    let my = magnitude(v.y);
    let mz = magnitude(v.z);
    let m = if mx >= my && mx >= mz {
        mx
    } else if my >= mz {
        my
    } else {
        mz
    };
    lemma_length_bounds(v, m);
    let len = v.length_up();
    let c = if mx >= my && mx >= mz {
        v.x
    } else if my >= mz {
        v.y
    } else {
        v.z
    };
    lemma_unit_component_lower(c, len, 1, 2);
    lemma_nonzero(v.unit());
}

/// The dot product of two vectors no longer than one has magnitude at most
/// one.
pub proof fn lemma_dot_of_units(a: Vector, b: Vector)
    requires
        a.norm2() <= ONE * ONE,
        b.norm2() <= ONE * ONE,
    ensures
        -ONE <= a.dot(b) <= ONE,
{
    lemma_inner_square(a, b);
    let i = a.inner(b);
    let n = a.norm2() as int;
    let m = b.norm2() as int;
    assert(-1_000_000_000_000 <= i <= 1_000_000_000_000) by (nonlinear_arith)
        requires
            i * i <= n * m,
            0 <= n <= 1_000_000 * 1_000_000,
            0 <= m <= 1_000_000 * 1_000_000,
    ;
    crate::fixed::lemma_quot_one(i, 1_000_000);
}

/// A sum of three products of factors within `m` and within `n` is within
/// three times `m * n`.
pub proof fn lemma_three_products(a1: int, a2: int, a3: int, b: Vector, m: int, n: int)
    requires
        -m <= a1 <= m,
        -m <= a2 <= m,
        -m <= a3 <= m,
        b.within(n),
    ensures
        -3 * (m * n) <= a1 * b.x + a2 * b.y + a3 * b.z <= 3 * (m * n),
{
    lemma_product_bound(a1, b.x, m, n);
    lemma_product_bound(a2, b.y, m, n);
    lemma_product_bound(a3, b.z, m, n);
}

/// The cross product is square to both of its factors, up to rounding: its
/// sum of products with either factor, which would be zero without
/// rounding, is within three times the bound of the factor's components.
pub proof fn lemma_cross_is_square(a: Vector, b: Vector, m: int)
    requires
        a.within(m),
        b.within(m),
    ensures
        -3 * m <= a.cross(b).inner(a) <= 3 * m,
        -3 * m <= a.cross(b).inner(b) <= 3 * m,
{
    let c = a.cross(b);
    let nx = a.y * b.z - a.z * b.y;
    let ny = a.z * b.x - a.x * b.z;
    let nz = a.x * b.y - a.y * b.x;
    crate::fixed::lemma_quot_remainder(nx, ONE as int);
    crate::fixed::lemma_quot_remainder(ny, ONE as int);
    crate::fixed::lemma_quot_remainder(nz, ONE as int);
    let ex = nx - c.x * 1_000_000;
    let ey = ny - c.y * 1_000_000;
    let ez = nz - c.z * 1_000_000;
    assert(c.x * ONE == c.x * 1_000_000 && c.y * ONE == c.y * 1_000_000 && c.z * ONE == c.z
        * 1_000_000);
    lemma_triple_product(a, b);
    lemma_three_products(ex, ey, ez, a, 1_000_000, m);
    lemma_three_products(ex, ey, ez, b, 1_000_000, m);
    assert(1_000_000 * c.inner(a) == -(ex * a.x + ey * a.y + ez * a.z)) by (nonlinear_arith)
        requires
            ex == nx - c.x * 1_000_000,
            ey == ny - c.y * 1_000_000,
            ez == nz - c.z * 1_000_000,
            nx * a.x + ny * a.y + nz * a.z == 0,
            c.inner(a) == c.x * a.x + c.y * a.y + c.z * a.z,
    ;
    assert(1_000_000 * c.inner(b) == -(ex * b.x + ey * b.y + ez * b.z)) by (nonlinear_arith)
        requires
            ex == nx - c.x * 1_000_000,
            ey == ny - c.y * 1_000_000,
            ez == nz - c.z * 1_000_000,
            nx * b.x + ny * b.y + nz * b.z == 0,
            c.inner(b) == c.x * b.x + c.y * b.y + c.z * b.z,
    ;
    assert(1_000_000 * m == m * 1_000_000);
}

/// The exact cross product of two vectors is square to both of them.
pub proof fn lemma_triple_product(a: Vector, b: Vector)
    ensures
        (a.y * b.z - a.z * b.y) * a.x + (a.z * b.x - a.x * b.z) * a.y + (a.x * b.y - a.y * b.x) * a.z
            == 0,
        (a.y * b.z - a.z * b.y) * b.x + (a.z * b.x - a.x * b.z) * b.y + (a.x * b.y - a.y * b.x) * b.z
            == 0,
{
    assert((a.y * b.z - a.z * b.y) * a.x + (a.z * b.x - a.x * b.z) * a.y + (a.x * b.y - a.y * b.x)
        * a.z == 0) by (nonlinear_arith);
    assert((a.y * b.z - a.z * b.y) * b.x + (a.z * b.x - a.x * b.z) * b.y + (a.x * b.y - a.y * b.x)
        * b.z == 0) by (nonlinear_arith);
}

/// A sum of three terms times a factor is the sum of the three products.
pub proof fn lemma_three_terms(a: int, b: int, c: int, f: int)
    by (nonlinear_arith)
    ensures
        (a + b + c) * f == a * f + b * f + c * f,
{
}

/// Where `f` is what the division of `c * k` by `len` leaves over beside the
/// quotient `u`, the products with `d` differ by `f * d`.
pub proof fn lemma_left_over(u: int, c: int, d: int, len: int, k: int, f: int)
    by (nonlinear_arith)
    requires
        f == c * k - u * len,
    ensures
        (u * d) * len - (c * d) * k == -(f * d),
{
}

/// The unit vector keeps the angles of its vector, up to rounding: its sum
/// of products with `d`, times the length rounded up, is within three times
/// that length times the bound of `d` of `ONE` times the vector's own sum of
/// products with `d`.
pub proof fn lemma_unit_inner(c: Vector, d: Vector, m: int)
    requires
        c.norm2() > 0,
        d.within(m),
    ensures
        -3 * (c.length_up() * m) <= c.unit().inner(d) * c.length_up() - ONE * c.inner(d) <= 3 * (
            c.length_up() * m),
{
    let len = c.length_up();
    let u = c.unit();
    lemma_length_bounds(c, magnitude(c.x) + magnitude(c.y) + magnitude(c.z));
    crate::fixed::lemma_quot_remainder(c.x * ONE, len);
    crate::fixed::lemma_quot_remainder(c.y * ONE, len);
    crate::fixed::lemma_quot_remainder(c.z * ONE, len);
    let fx = c.x * 1_000_000 - u.x * len;
    let fy = c.y * 1_000_000 - u.y * len;
    let fz = c.z * 1_000_000 - u.z * len;
    assert(c.x * ONE == c.x * 1_000_000 && c.y * ONE == c.y * 1_000_000 && c.z * ONE == c.z
        * 1_000_000);
    lemma_three_products(fx, fy, fz, d, len, m);
    lemma_left_over(u.x, c.x, d.x, len, 1_000_000, fx);
    lemma_left_over(u.y, c.y, d.y, len, 1_000_000, fy);
    lemma_left_over(u.z, c.z, d.z, len, 1_000_000, fz);
    lemma_three_terms(u.x * d.x, u.y * d.y, u.z * d.z, len);
    assert(u.inner(d) * len - 1_000_000 * c.inner(d) == -(fx * d.x + fy * d.y + fz * d.z));
}

/// Scaling keeps the angles of a vector, up to rounding: the sum of products
/// of the scaled vector with `d`, times `ONE`, is within three times `ONE`
/// times the bound of `d` of `s` times the vector's own sum of products.
pub proof fn lemma_scaled_inner(b: Vector, s: int, d: Vector, m: int)
    requires
        d.within(m),
    ensures
        -3 * (1_000_000 * m) <= b.scaled(s).inner(d) * 1_000_000 - s * b.inner(d) <= 3 * (1_000_000
            * m),
{
    let w = b.scaled(s);
    crate::fixed::lemma_quot_remainder(b.x * s, ONE as int);
    crate::fixed::lemma_quot_remainder(b.y * s, ONE as int);
    crate::fixed::lemma_quot_remainder(b.z * s, ONE as int);
    let fx = b.x * s - w.x * 1_000_000;
    let fy = b.y * s - w.y * 1_000_000;
    let fz = b.z * s - w.z * 1_000_000;
    assert(w.x * ONE == w.x * 1_000_000 && w.y * ONE == w.y * 1_000_000 && w.z * ONE == w.z
        * 1_000_000);
    lemma_three_products(fx, fy, fz, d, 1_000_000, m);
    lemma_left_over(w.x, b.x, d.x, 1_000_000, s, fx);
    lemma_left_over(w.y, b.y, d.y, 1_000_000, s, fy);
    lemma_left_over(w.z, b.z, d.z, 1_000_000, s, fz);
    lemma_three_terms(b.x * d.x, b.y * d.y, b.z * d.z, s);
    assert((b.x * d.x + b.y * d.y + b.z * d.z) * s == s * b.inner(d)) by (nonlinear_arith)
        requires
            b.inner(d) == b.x * d.x + b.y * d.y + b.z * d.z,
    ;
    assert(w.inner(d) * 1_000_000 - s * b.inner(d) == -(fx * d.x + fy * d.y + fz * d.z));
}

} // verus!
