//! The camera, rays, and the operators that combine distances.
use vstd::prelude::*;
use crate::fixed::{fits, product, product_spec, quotient, quotient_spec, LIMIT, ONE};
use crate::math::{Vec3, Vector};

verus! {

/// Half of one.
pub const HALF: i64 = 500_000;

/// The smaller of two integers.
pub open spec fn min_spec(a: int, b: int) -> int {
    if a <= b {
        a
    } else {
        b
    }
}

/// The larger of two integers.
pub open spec fn max_spec(a: int, b: int) -> int {
    if a >= b {
        a
    } else {
        b
    }
}

/// `f` raised to at least `min`, then capped at `max`.
pub open spec fn clamp_spec(f: int, min: int, max: int) -> int {
    min_spec(max_spec(f, min), max)
}

/// The point at the fraction `k` of the way from `a` to `b`.
pub open spec fn mix_spec(a: int, b: int, k: int) -> int {
    a + product_spec(b - a, k)
}

/// The blend factor of the smoothed operators: one half plus half of `d / k`,
/// clamped to the interval from zero to one.
pub open spec fn blend_spec(d: int, k: int) -> int {
    clamp_spec(HALF + product_spec(HALF as int, quotient_spec(d, k)), 0, ONE as int)
}

/// The rounding of the seam: `k * h * (1 - h)`.
pub open spec fn seam_spec(k: int, h: int) -> int {
    product_spec(product_spec(k, h), ONE - h)
}

/// Smoothed union of two distances with blend width `k`.
pub open spec fn smooth_union_spec(d1: int, d2: int, k: int) -> int {
    let h = blend_spec(d2 - d1, k);
    mix_spec(d2, d1, h) - seam_spec(k, h)
}

/// Smoothed subtraction of the second distance from the first.
pub open spec fn smooth_substraction_spec(d1: int, d2: int, k: int) -> int {
    let h = blend_spec(-(d1 + d2), k);
    mix_spec(d1, -d2, h) + seam_spec(k, h)
}

/// Smoothed intersection of two distances with blend width `k`.
pub open spec fn smooth_intersection_spec(d1: int, d2: int, k: int) -> int {
    let h = blend_spec(-(d2 - d1), k);
    mix_spec(d2, d1, h) + seam_spec(k, h)
}

/// Whether a scalar has magnitude at most `LIMIT`.
pub open spec fn bounded(v: int) -> bool {
    -LIMIT <= v <= LIMIT
}

/// Distance to the union of two shapes.
pub fn union(d1: i64, d2: i64) -> (d: i64)
    ensures
        d == min_spec(d1 as int, d2 as int),
{
    if d1 <= d2 {
        d1
    } else {
        d2
    }
}

/// Distance to the first shape with the second carved out.
pub fn substraction(d1: i64, d2: i64) -> (d: i64)
    requires
        d2 > i64::MIN,
    ensures
        d == max_spec(d1 as int, -d2),
{
    if -d2 >= d1 {
        -d2
    } else {
        d1
    }
}

/// Distance to the intersection of two shapes.
pub fn intersection(d1: i64, d2: i64) -> (d: i64)
    ensures
        d == max_spec(d1 as int, d2 as int),
{
    if d1 >= d2 {
        d1
    } else {
        d2
    }
}

/// `f` raised to at least `min`, then capped at `max`.
pub fn clamp(f: i64, min: i64, max: i64) -> (r: i64)
    ensures
        r == clamp_spec(f as int, min as int, max as int),
{
    let low: i64 = if f >= min {
        f
    } else {
        min
    };
    if low <= max {
        low
    } else {
        max
    }
}

/// Linear interpolation from `a` to `b` by the fraction `k`.
pub fn mix(a: i64, b: i64, k: i64) -> (r: i64)
    requires
        bounded(a as int),
        bounded(b as int),
        bounded(k as int),
    ensures
        r == mix_spec(a as int, b as int, k as int),
{
    proof {
        lemma_bounded_product(b - a, k as int);
    }
    a + product(b - a, k)
}

/// The product of two scalars of magnitude at most `2 * LIMIT` and `LIMIT`
/// fits a scalar with room to spare.
pub proof fn lemma_bounded_product(a: int, b: int)
    requires
        -2 * LIMIT <= a <= 2 * LIMIT,
        bounded(b),
    ensures
        -2_000_000_000_000_000_000 <= product_spec(a, b) <= 2_000_000_000_000_000_000,
{
    crate::fixed::lemma_product_bound(a, b, 2_000_000_000_000, 1_000_000_000_000);
    assert(2_000_000_000_000int * 1_000_000_000_000int == 2_000_000_000_000_000_000_000_000int)
        by (nonlinear_arith);
    crate::fixed::lemma_quot_one(a * b, 2_000_000_000_000_000_000);
}

/// Multiplying by one changes nothing, and multiplying by zero gives zero.
pub proof fn lemma_product_unit(a: int)
    ensures
        product_spec(a, ONE as int) == a,
        product_spec(a, 0) == 0,
        product_spec(0, a) == 0,
{
    assert(a * 0 == 0 && 0 * a == 0) by (nonlinear_arith);
    assert(a * ONE == a * 1_000_000);
    crate::fixed::lemma_quot_range(a * ONE, a, a);
    crate::fixed::lemma_quot_range(0, 0, 0);
}

/// A quotient by a positive divisor no larger than the numerator's magnitude
/// is at least one in magnitude, and it keeps the numerator's sign.
pub proof fn lemma_quotient_far(d: int, k: int)
    requires
        k > 0,
    ensures
        d >= k ==> quotient_spec(d, k) >= ONE,
        d <= -k ==> quotient_spec(d, k) <= -ONE,
        -2 * LIMIT <= d <= 2 * LIMIT ==> -2_000_000_000_000_000_000 <= quotient_spec(d, k)
            <= 2_000_000_000_000_000_000,
{
    crate::fixed::lemma_quot_bounds(d * ONE, k);
    let n = crate::fixed::magnitude(d * ONE);
    assert(n == crate::fixed::magnitude(d) * 1_000_000);
    let q = n / k;
    if d >= k || d <= -k {
        assert(q >= ONE) by (nonlinear_arith)
            requires
                n >= k * ONE,
                k > 0,
                q == n / k,
        ;
    }
}

/// The blend factor of the smoothed operators.
fn blend(d: i64, k: i64) -> (h: i64)
    requires
        -2 * LIMIT <= d <= 2 * LIMIT,
        0 < k,
    ensures
        h == blend_spec(d as int, k as int),
        0 <= h <= ONE,
        d >= k ==> h == ONE,
        d <= -k ==> h == 0,
{
    proof {
        lemma_quotient_far(d as int, k as int);
    }
    let q: i64 = quotient(d, k);
    proof {
        crate::fixed::lemma_quot_one(HALF * q, 1_000_000_000_000_000_000);
        if q >= ONE {
            crate::fixed::lemma_quot_range(HALF * q, 500_000, 1_000_000_000_000_000_000);
        }
        if q <= -ONE {
            crate::fixed::lemma_quot_range(HALF * q, -1_000_000_000_000_000_000, -500_000);
        }
    }
    clamp(HALF + product(HALF, q), 0, ONE)
}

/// The rounding of the seam.
fn seam(k: i64, h: i64) -> (s: i64)
    requires
        0 < k <= LIMIT,
        0 <= h <= ONE,
    ensures
        s == seam_spec(k as int, h as int),
        0 <= s <= k,
        h == 0 || h == ONE ==> s == 0,
{
    proof {
        lemma_fraction(k as int, h as int);
        lemma_fraction(product_spec(k as int, h as int), ONE - h);
        lemma_product_unit(k as int);
        lemma_product_unit(product_spec(k as int, h as int));
    }
    product(product(k, h), ONE - h)
}

/// A nonnegative scalar times a fraction between zero and one lies between
/// zero and the scalar.
pub proof fn lemma_fraction(a: int, h: int)
    requires
        0 <= a,
        0 <= h <= ONE,
    ensures
        0 <= product_spec(a, h) <= a,
{
    let p = a * h;
    assert(0 <= p <= a * 1_000_000) by (nonlinear_arith)
        requires
            p == a * h,
            0 <= a,
            0 <= h <= 1_000_000,
    ;
    crate::fixed::lemma_quot_range(p, 0, a);
}

/// Smoothed union of two distances: the union away from the seam, rounded
/// over the blend width `k` near it.
pub fn smooth_union(d1: i64, d2: i64, k: i64) -> (d: i64)
    requires
        bounded(d1 as int),
        bounded(d2 as int),
        0 < k <= LIMIT,
    ensures
        d == smooth_union_spec(d1 as int, d2 as int, k as int),
        d2 - d1 >= k || d1 - d2 >= k ==> d == min_spec(d1 as int, d2 as int),
{
    let h: i64 = blend(d2 - d1, k);
    proof {
        lemma_bounded_product(d1 - d2, h as int);
        lemma_product_unit(d1 - d2);
    }
    mix(d2, d1, h) - seam(k, h)
}

/// Smoothed subtraction of the second shape from the first.
pub fn smooth_substraction(d1: i64, d2: i64, k: i64) -> (d: i64)
    requires
        bounded(d1 as int),
        bounded(d2 as int),
        0 < k <= LIMIT,
    ensures
        d == smooth_substraction_spec(d1 as int, d2 as int, k as int),
        d1 + d2 >= k || d1 + d2 <= -k ==> d == max_spec(d1 as int, -d2),
{
    let h: i64 = blend(-(d1 + d2), k);
    proof {
        lemma_bounded_product(-d2 - d1, h as int);
        lemma_product_unit(-d2 - d1);
    }
    mix(d1, -d2, h) + seam(k, h)
}

/// Smoothed intersection of two distances.
pub fn smooth_intersection(d1: i64, d2: i64, k: i64) -> (d: i64)
    requires
        bounded(d1 as int),
        bounded(d2 as int),
        0 < k <= LIMIT,
    ensures
        d == smooth_intersection_spec(d1 as int, d2 as int, k as int),
        d2 - d1 >= k || d1 - d2 >= k ==> d == max_spec(d1 as int, d2 as int),
{
    let h: i64 = blend(-(d2 - d1), k);
    proof {
        lemma_bounded_product(d1 - d2, h as int);
        lemma_product_unit(d1 - d2);
    }
    mix(d2, d1, h) + seam(k, h)
}

/// Largest dot product, in raw units, of two directions that count as
/// square to each other.
pub const SKEW: i64 = 100;

/// Largest coordinate magnitude of a camera position or a ray origin.
pub const WORLD: i64 = 100_000_000_000;

/// A ray: an origin and a direction of at most unit length.
pub struct Ray {
    pub pos: Vec3,
    pub dir: Vec3,
}

impl Ray {
    /// The ray from `pos` along `dir`.
    pub fn from(pos: Vec3, dir: Vec3) -> (r: Self)
        ensures
            r.pos == pos,
            r.dir == dir,
    {
        Self { pos, dir }
    }
}

/// The mathematical content of a [`Camera`]: where it stands, where it looks,
/// and the two vectors that span its image plane.
pub struct Pose {
    pub pos: Vector,
    pub dir: Vector,
    pub base1: Vector,
    pub base2: Vector,
}

impl Pose {
    /// Whether the position lies within `WORLD` and no component of the
    /// three directions exceeds one.
    pub open spec fn wf(self) -> bool {
        &&& self.pos.within(WORLD as int)
        &&& self.dir.within(ONE as int)
        &&& self.base1.within(ONE as int)
        &&& self.base2.within(ONE as int)
    }

    /// Whether none of the three directions is the zero vector.
    pub open spec fn proper(self) -> bool {
        self.dir.norm2() > 0 && self.base1.norm2() > 0 && self.base2.norm2() > 0
    }

    /// Whether the three directions are square to each other: each pair has
    /// a dot product of magnitude at most `SKEW`.
    pub open spec fn square(self) -> bool {
        &&& -SKEW <= self.dir.dot(self.base1) <= SKEW
        &&& -SKEW <= self.dir.dot(self.base2) <= SKEW
        &&& -SKEW <= self.base1.dot(self.base2) <= SKEW
    }

    /// Whether the camera is well-formed, proper and square, and looks along
    /// a direction whose squared length is at least a fifth of one.
    pub open spec fn steady(self) -> bool {
        &&& self.wf()
        &&& self.proper()
        &&& self.square()
        &&& 5 * self.dir.norm2() >= ONE * ONE
    }

    /// The point of the image plane that the screen coordinates `u`, `v`
    /// name, seen from the camera.
    pub open spec fn aim(self, u: int, v: int) -> Vector {
        self.dir.plus(self.base1.scaled(u)).plus(self.base2.scaled(v))
    }

    /// The direction of the ray through the screen coordinates `u`, `v`.
    pub open spec fn ray_dir(self, u: int, v: int) -> Vector {
        self.aim(u, v).unit_or_zero()
    }
}

/// A camera.
pub struct Camera {
    pos: Vec3,
    dir: Vec3,
    base1: Vec3,
    base2: Vec3,
}

impl View for Camera {
    type V = Pose;

    closed spec fn view(&self) -> Pose {
        Pose { pos: self.pos@, dir: self.dir@, base1: self.base1@, base2: self.base2@ }
    }
}

/// The pose of a camera at the origin that looks along the first axis.
pub open spec fn default_pose() -> Pose {
    Pose {
        pos: Vector { x: 0, y: 0, z: 0 },
        dir: Vector { x: ONE as int, y: 0, z: 0 },
        base1: Vector { x: 0, y: ONE as int, z: 0 },
        base2: Vector { x: 0, y: 0, z: ONE as int },
    }
}

impl Camera {
    /// A camera at the origin that looks along the first axis.
    pub fn new() -> (c: Self)
        ensures
            c@ == default_pose(),
    {
        Self {
            pos: Vec3::new(0, 0, 0),
            dir: Vec3::new(ONE, 0, 0),
            base1: Vec3::new(0, ONE, 0),
            base2: Vec3::new(0, 0, ONE),
        }
    }

    /// A camera from its position, its viewing direction and the two vectors
    /// that span its image plane.
    pub fn from(pos: Vec3, dir: Vec3, base1: Vec3, base2: Vec3) -> (c: Self)
        ensures
            c@ == (Pose { pos: pos@, dir: dir@, base1: base1@, base2: base2@ }),
    {
        Self { pos, dir, base1, base2 }
    }

    /// The ray from the camera through the screen coordinates `u`, `v`, each
    /// between minus one and one.
    pub fn get_ray(&self, u: i64, v: i64) -> (r: Ray)
        requires
            self@.wf(),
            -ONE <= u <= ONE,
            -ONE <= v <= ONE,
        ensures
            r.pos@ == self@.pos,
            r.dir@ == self@.ray_dir(u as int, v as int),
            r.dir@.within(ONE as int),
            r.dir@.norm2() <= ONE * ONE,
            self@.steady() ==> r.dir@.norm2() > 0,
    {
        proof {
            lemma_scaled_within(self.base1@, u as int);
            lemma_scaled_within(self.base2@, v as int);
            if self@.steady() {
                lemma_aim_not_zero(self@, u as int, v as int);
            }
        }
        Ray { pos: self.pos, dir: (self.dir + u * self.base1 + v * self.base2).normalize_or_zero() }
    }
}

/// A vector within one, scaled by a factor between minus one and one, stays
/// within one.
pub proof fn lemma_scaled_within(a: Vector, s: int)
    requires
        a.within(ONE as int),
        -ONE <= s <= ONE,
    ensures
        a.scaled(s).within(ONE as int),
{
    crate::fixed::lemma_product_bound(a.x, s, 1_000_000, 1_000_000);
    crate::fixed::lemma_product_bound(a.y, s, 1_000_000, 1_000_000);
    crate::fixed::lemma_product_bound(a.z, s, 1_000_000, 1_000_000);
    crate::fixed::lemma_quot_one(a.x * s, 1_000_000);
    crate::fixed::lemma_quot_one(a.y * s, 1_000_000);
    crate::fixed::lemma_quot_one(a.z * s, 1_000_000);
}

/// A steady camera has a ray through every point of the screen: the point
/// of the image plane at the screen coordinates `u`, `v` never coincides
/// with the camera, so the ray's direction is a unit vector.
pub proof fn lemma_aim_not_zero(pose: Pose, u: int, v: int)
    requires
        pose.steady(),
        -ONE <= u <= ONE,
        -ONE <= v <= ONE,
    ensures
        pose.aim(u, v).norm2() > 0,
        pose.ray_dir(u, v) == pose.aim(u, v).unit(),
{
    let dir = pose.dir;
    let s1 = pose.base1.scaled(u);
    let s2 = pose.base2.scaled(v);
    let aim = pose.aim(u, v);
    crate::math::lemma_scaled_inner(pose.base1, u, dir, 1_000_000);
    crate::math::lemma_scaled_inner(pose.base2, v, dir, 1_000_000);
    let i1 = pose.base1.inner(dir);
    let i2 = pose.base2.inner(dir);
    assert(dir.inner(pose.base1) == i1 && dir.inner(pose.base2) == i2) by (nonlinear_arith)
        requires
            i1 == pose.base1.x * dir.x + pose.base1.y * dir.y + pose.base1.z * dir.z,
            i2 == pose.base2.x * dir.x + pose.base2.y * dir.y + pose.base2.z * dir.z,
            dir.inner(pose.base1) == dir.x * pose.base1.x + dir.y * pose.base1.y + dir.z * pose.base1.z,
            dir.inner(pose.base2) == dir.x * pose.base2.x + dir.y * pose.base2.y + dir.z * pose.base2.z,
    ;
    crate::fixed::lemma_quot_remainder(i1, ONE as int);
    crate::fixed::lemma_quot_remainder(i2, ONE as int);
    assert(dir.dot(pose.base1) * ONE == dir.dot(pose.base1) * 1_000_000);
    assert(dir.dot(pose.base2) * ONE == dir.dot(pose.base2) * 1_000_000);
    assert(-101_000_000 <= i1 <= 101_000_000);
    assert(-101_000_000 <= i2 <= 101_000_000);
    crate::fixed::lemma_product_bound(u, i1, 1_000_000, 101_000_000);
    crate::fixed::lemma_product_bound(v, i2, 1_000_000, 101_000_000);
    assert(1_000_000int * 101_000_000int == 101_000_000_000_000int) by (nonlinear_arith);
    let j1 = s1.inner(dir);
    let j2 = s2.inner(dir);
    assert(-104_000_000 <= j1 <= 104_000_000);
    assert(-104_000_000 <= j2 <= 104_000_000);
    let n = dir.norm2() as int;
    assert(ONE * ONE == 1_000_000_000_000) by (nonlinear_arith);
    assert(dir.x * dir.x >= 0 && dir.y * dir.y >= 0 && dir.z * dir.z >= 0) by (nonlinear_arith);
    assert(aim.inner(dir) == n + j1 + j2) by (nonlinear_arith)
        requires
            aim.x == dir.x + s1.x + s2.x,
            aim.y == dir.y + s1.y + s2.y,
            aim.z == dir.z + s1.z + s2.z,
            n == dir.x * dir.x + dir.y * dir.y + dir.z * dir.z,
            j1 == s1.x * dir.x + s1.y * dir.y + s1.z * dir.z,
            j2 == s2.x * dir.x + s2.y * dir.y + s2.z * dir.z,
            aim.inner(dir) == aim.x * dir.x + aim.y * dir.y + aim.z * dir.z,
    ;
    assert(aim.inner(dir) > 0);
    if aim.x == 0 && aim.y == 0 && aim.z == 0 {
        assert(aim.inner(dir) == 0) by (nonlinear_arith)
            requires
                aim.x == 0 && aim.y == 0 && aim.z == 0,
                aim.inner(dir) == aim.x * dir.x + aim.y * dir.y + aim.z * dir.z,
        ;
    }
    crate::math::lemma_nonzero(aim);
}

} // verus!
