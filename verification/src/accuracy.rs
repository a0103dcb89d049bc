//! How close the estimated normal of the sphere comes to the true one.
use vstd::prelude::*;
use crate::fixed::{lemma_product_bound, lemma_quot_bounds, lemma_root_exists, magnitude, quot, root_spec,
    ONE};
use crate::marcher::{field_spec, gradient_spec, normal_spec, STEP};
use crate::math::{lemma_length_bounds, Vector};
use crate::scene::origin;

verus! {

/// The most by which a component of the estimated normal differs from the
/// true one on the unit sphere: seven times the step of the differences.
pub const NORMAL_TOLERANCE: i64 = 7_000;

/// Whether `a` and `b` differ by at most `tolerance` in every component.
pub open spec fn near(a: Vector, b: Vector, tolerance: int) -> bool {
    a.minus(b).within(tolerance)
}

/// One central difference on the unit sphere: `c` is a component of a point
/// of length one and `rest` the sum of the squares of the other two. The
/// length of the point moved by `STEP` along that axis, less its length moved
/// the other way, times five hundred, is within 1500 raw units of `c`.
pub proof fn lemma_axis_difference(c: int, rest: int)
    requires
        0 <= rest,
        ONE * ONE <= c * c + rest < (ONE + 1) * (ONE + 1),
    ensures
        ({
            let up = root_spec(((c + STEP) * (c + STEP) + rest) as nat) as int;
            let down = root_spec(((c - STEP) * (c - STEP) + rest) as nat) as int;
            -1500 <= 500 * (up - down) - c <= 1500
        }),
{
    let total = c * c + rest;
    let above = (c + STEP) * (c + STEP) + rest;
    let below = (c - STEP) * (c - STEP) + rest;
    assert(ONE * ONE == 1_000_000_000_000 && (ONE + 1) * (ONE + 1) == 1_000_002_000_001)
        by (nonlinear_arith);
    assert(above == total + 2000 * c + 1_000_000 && below == total - 2000 * c + 1_000_000)
        by (nonlinear_arith)
        requires
            total == c * c + rest,
            above == (c + 1000) * (c + 1000) + rest,
            below == (c - 1000) * (c - 1000) + rest,
    ;
    assert(-1_000_000 <= c <= 1_000_000) by (nonlinear_arith)
        requires
            c * c < 1_000_002_000_001,
    ;
    assert(above >= 0 && below >= 0);
    lemma_root_exists(above as nat);
    lemma_root_exists(below as nat);
    let up = root_spec(above as nat) as int;
    let down = root_spec(below as nat) as int;
    lemma_root_window(above, up);
    lemma_root_window(below, down);
    let g = up - down;
    let d = up + down;
    assert(g * d == up * up - down * down) by (nonlinear_arith)
        requires
            g == up - down,
            d == up + down,
    ;
    assert((up + 1) * (up + 1) == up * up + 2 * up + 1 && (down + 1) * (down + 1) == down * down + 2
        * down + 1) by (nonlinear_arith);
    lemma_product_bound(g, 2_000_000 - d, 2000, 2000);
    assert(2_000_000 * g == g * (2_000_000 - d) + g * d) by (nonlinear_arith);
}

/// The root of a number between the squares of `ONE - STEP` and of
/// `ONE + STEP + 1` lies between `ONE - STEP` and `ONE + STEP`.
proof fn lemma_root_window(n: int, r: int)
    by (nonlinear_arith)
    requires
        998_001_000_000 <= n < 1_002_003_002_001,
        0 <= r,
        r * r <= n < (r + 1) * (r + 1),
    ensures
        999_000 <= r <= 1_001_000,
{
}

/// One component of a unit vector: where five hundred times `g` is within
/// 1500 of `p`, and the length `len` of the whole vector lies between 1991
/// and 2009, `g` over `len` is within 6028 of `p`.
proof fn lemma_unit_component_near(g: int, p: int, len: int)
    requires
        -1500 <= 500 * g - p <= 1500,
        -ONE <= p <= ONE,
        1991 <= len <= 2009,
    ensures
        -6028 <= quot(g * ONE, len) - p <= 6028,
{
    let n = quot(g * ONE, len);
    lemma_quot_bounds(g * ONE, len);
    let gap = n * len - g * 1_000_000;
    let q = magnitude(n);
    assert(g * ONE == g * 1_000_000);
    assert(magnitude(len) == len);
    assert(q * len <= magnitude(g * 1_000_000) < (q + 1) * len);
    assert((q + 1) * len == q * len + len && (-n) * len == -(n * len)) by (nonlinear_arith);
    assert(-len < gap < len);
    lemma_product_bound(p, 2000 - len, 1_000_000, 9);
    let x = n - p;
    assert(x * len == gap + p * (2000 - len) + 2000 * (500 * g - p)) by (nonlinear_arith)
        requires
            x == n - p,
            gap == n * len - g * 1_000_000,
    ;
    assert(-6028 <= x <= 6028) by (nonlinear_arith)
        requires
            -12_002_009 <= x * len <= 12_002_009,
            1991 <= len,
    ;
}

/// Where five hundred times each component of `g` is within 1500 of the
/// matching component of a point `p` of length one, the unit vector of `g`
/// is within 6028 of `p` in every component.
pub proof fn lemma_unit_near(g: Vector, p: Vector)
    requires
        ONE * ONE <= p.norm2() < (ONE + 1) * (ONE + 1),
        -1500 <= 500 * g.x - p.x <= 1500,
        -1500 <= 500 * g.y - p.y <= 1500,
        -1500 <= 500 * g.z - p.z <= 1500,
    ensures
        g.norm2() > 0,
        near(g.unit(), p, 6028),
{
    assert(ONE * ONE == 1_000_000_000_000 && (ONE + 1) * (ONE + 1) == 1_000_002_000_001)
        by (nonlinear_arith);
    lemma_length_bounds(p, magnitude(p.x) + magnitude(p.y) + magnitude(p.z));
    assert(p.length() == 1_000_000) by {
        crate::fixed::lemma_root_is(p.norm2(), 1_000_000);
    }
    assert(p.within(1_000_000));
    let n = g.norm2() as int;
    lemma_scaled_square(g.x, p.x);
    lemma_scaled_square(g.y, p.y);
    lemma_scaled_square(g.z, p.z);
    assert(g.x * g.x >= 0 && g.y * g.y >= 0 && g.z * g.z >= 0 && p.x * p.x >= 0 && p.y * p.y >= 0
        && p.z * p.z >= 0) by (nonlinear_arith);
    assert(3_964_000 <= n <= 4_036_081);
    let len = g.length_up();
    let low = g.length();
    lemma_length_bounds(g, magnitude(g.x) + magnitude(g.y) + magnitude(g.z));
    lemma_root_exists(g.norm2());
    assert(1990 <= low <= 2009) by (nonlinear_arith)
        requires
            3_964_000 <= n <= 4_036_081,
            0 <= low,
            low * low <= n < (low + 1) * (low + 1),
    ;
    assert(low == 2009 ==> low * low == 4_036_081) by (nonlinear_arith);
    assert(low == 1990 ==> low * low == 3_960_100) by (nonlinear_arith);
    assert(1991 <= len <= 2009);
    lemma_unit_component_near(g.x, p.x, len);
    lemma_unit_component_near(g.y, p.y, len);
    lemma_unit_component_near(g.z, p.z, len);
}

/// Where five hundred times `g` is within 1500 of `p`, a quarter of a million
/// times the square of `g` is within three thousand and three times `ONE` of
/// the square of `p`.
proof fn lemma_scaled_square(g: int, p: int)
    by (nonlinear_arith)
    requires
        -1500 <= 500 * g - p <= 1500,
        -1_000_000 <= p <= 1_000_000,
    ensures
        p * p - 3_000_000_000 <= 250_000 * (g * g) <= p * p + 3_002_250_000,
{
    let e = 500 * g - p;
    assert(250_000 * (g * g) == (p + e) * (p + e));
    assert((p + e) * (p + e) == p * p + 2 * (p * e) + e * e);
    assert(-1_500_000_000 <= p * e <= 1_500_000_000);
    assert(0 <= e * e <= 2_250_000);
}

/// On the plain unit sphere, the estimated normal at a point exactly on the
/// surface is within `NORMAL_TOLERANCE` of the true normal, the unit vector
/// from the centre to the point, in every component.
pub proof fn lemma_normal_accuracy(pos: Vector)
    requires
        field_spec(false, pos) == 0,
    ensures
        near(normal_spec(false, pos), pos.minus(origin()).unit(), NORMAL_TOLERANCE as int),
{
    assert(ONE * ONE == 1_000_000_000_000 && (ONE + 1) * (ONE + 1) == 1_000_002_000_001)
        by (nonlinear_arith);
    assert(pos.minus(origin()) == pos);
    lemma_root_exists(pos.norm2());
    assert(pos.length() == ONE);
    let xx = pos.x * pos.x;
    let yy = pos.y * pos.y;
    let zz = pos.z * pos.z;
    assert(xx >= 0 && yy >= 0 && zz >= 0) by (nonlinear_arith)
        requires
            xx == pos.x * pos.x,
            yy == pos.y * pos.y,
            zz == pos.z * pos.z,
    ;
    let dx = Vector { x: STEP as int, y: 0, z: 0 };
    let dy = Vector { x: 0, y: STEP as int, z: 0 };
    let dz = Vector { x: 0, y: 0, z: STEP as int };
    lemma_axis_difference(pos.x, yy + zz);
    lemma_axis_difference(pos.y, xx + zz);
    lemma_axis_difference(pos.z, xx + yy);
    assert(pos.plus(dx).minus(origin()) == pos.plus(dx) && pos.minus(dx).minus(origin()) == pos.minus(
        dx,
    ));
    assert(pos.plus(dy).minus(origin()) == pos.plus(dy) && pos.minus(dy).minus(origin()) == pos.minus(
        dy,
    ));
    assert(pos.plus(dz).minus(origin()) == pos.plus(dz) && pos.minus(dz).minus(origin()) == pos.minus(
        dz,
    ));
    let g = gradient_spec(false, pos);
    assert(-1500 <= 500 * g.x - pos.x <= 1500);
    assert(-1500 <= 500 * g.y - pos.y <= 1500);
    assert(-1500 <= 500 * g.z - pos.z <= 1500);
    lemma_unit_near(g, pos);
    lemma_unit_of_unit_length(pos);
}

/// The unit vector of a point of length one is within one raw unit of the
/// point.
pub proof fn lemma_unit_of_unit_length(p: Vector)
    requires
        ONE * ONE <= p.norm2() < (ONE + 1) * (ONE + 1),
    ensures
        near(p.unit(), p, 1),
{
    assert(ONE * ONE == 1_000_000_000_000 && (ONE + 1) * (ONE + 1) == 1_000_002_000_001)
        by (nonlinear_arith);
    lemma_length_bounds(p, magnitude(p.x) + magnitude(p.y) + magnitude(p.z));
    crate::fixed::lemma_root_is(p.norm2(), 1_000_000);
    let len = p.length_up();
    assert(len == 1_000_000 || len == 1_000_001);
    lemma_unit_self(p.x, len);
    lemma_unit_self(p.y, len);
    lemma_unit_self(p.z, len);
}

/// A component of magnitude at most one, divided by a length of one or one
/// raw unit more, moves by at most one raw unit.
proof fn lemma_unit_self(c: int, len: int)
    requires
        -ONE <= c <= ONE,
        len == 1_000_000 || len == 1_000_001,
    ensures
        -1 <= quot(c * ONE, len) - c <= 1,
{
    let n = quot(c * ONE, len);
    lemma_quot_bounds(c * ONE, len);
    let m = magnitude(c);
    let q = magnitude(n);
    assert(magnitude(c * ONE) == m * 1_000_000);
    assert(q * len <= m * 1_000_000 < (q + 1) * len);
    assert(m - 1 <= q <= m) by (nonlinear_arith)
        requires
            q * len <= m * 1_000_000 < (q + 1) * len,
            len == 1_000_000 || len == 1_000_001,
            0 <= m <= 1_000_000,
            0 <= q,
    ;
}

} // verus!
