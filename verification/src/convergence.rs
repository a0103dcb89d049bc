//! Rays that provably reach the sphere: those aimed at its centre.
use vstd::prelude::*;
use crate::fixed::{lemma_root_exists, magnitude, quot, ONE};
use crate::marcher::{cast_spec, field_spec, shade_spec, MAX_DISTANCE, MIN_DISTANCE};
use crate::math::{lemma_length_bounds, lemma_unit_norm, Vector};
use crate::primitives::lemma_sphere_step_stays_outside;
use crate::scene::origin;

verus! {

/// One component of a step toward the centre: `p` is the component, `len`
/// the length of the point rounded up and `d` the distance stepped. The new
/// component, times `len`, is within six times `len` of the old one times
/// `len - d`.
proof fn lemma_head_on_component(p: int, len: int, d: int)
    requires
        0 < len,
        -len <= p <= len,
        0 <= d <= 5 * ONE,
    ensures
        ({
            let u = 0 - quot(p * ONE, len);
            let v = quot(u * d, ONE as int);
            -6 * len <= (p + v) * len - p * (len - d) <= 6 * len
        }),
{
    let q = quot(p * ONE, len);
    let u = 0 - q;
    let v = quot(u * d, ONE as int);
    let w = u * d;
    crate::fixed::lemma_quot_remainder(p * ONE, len);
    crate::fixed::lemma_quot_remainder(w, ONE as int);
    let a = p * 1_000_000 - q * len;
    let b = w - v * 1_000_000;
    assert(p * ONE == p * 1_000_000);
    assert(v * ONE == v * 1_000_000);
    assert(-len < a < len);
    assert(-1_000_000 < b < 1_000_000);
    crate::fixed::lemma_product_bound(a, d, len, 5_000_000);
    assert(len * 5_000_000 == 5_000_000 * len);
    let x = (p + v) * len - p * (len - d);
    assert(x == v * len + p * d) by (nonlinear_arith)
        requires
            x == (p + v) * len - p * (len - d),
    ;
    assert(1_000_000 * (v * len) == (w - b) * len) by (nonlinear_arith)
        requires
            b == w - v * 1_000_000,
    ;
    assert((w - b) * len == w * len - b * len) by (nonlinear_arith);
    assert(w * len == -(d * (q * len))) by (nonlinear_arith)
        requires
            w == u * d,
            u == 0 - q,
    ;
    assert(d * (q * len) == d * (p * 1_000_000 - a)) by (nonlinear_arith)
        requires
            a == p * 1_000_000 - q * len,
    ;
    assert(d * (p * 1_000_000 - a) == 1_000_000 * (p * d) - a * d) by (nonlinear_arith);
    assert(1_000_000 * x == a * d - b * len);
    crate::fixed::lemma_product_bound(b, len, 1_000_000, len);
    assert(1_000_000 * len == len * 1_000_000);
}

/// A square is bounded by the square of a nearby number: where `x` is within
/// `e` of `y` and `y` has magnitude at most `m`, the square of `x` is at
/// most the square of `y` plus `2 m e + e^2`.
proof fn lemma_near_square(x: int, y: int, m: int, e: int)
    by (nonlinear_arith)
    requires
        -e <= x - y <= e,
        -m <= y <= m,
    ensures
        x * x <= y * y + 2 * (m * e) + e * e,
{
    let t = x - y;
    assert(x * x == y * y + 2 * (y * t) + t * t);
    assert(y * t <= m * e);
    assert(t * t <= e * e);
}

/// A ray aimed at the centre of the plain sphere reaches the surface with
/// its first step: from any point whose field lies between `MIN_DISTANCE`
/// and `MAX_DISTANCE`, one step toward the centre ends on the surface or
/// less than twenty raw units outside it.
pub proof fn lemma_head_on_step(pos: Vector)
    requires
        MIN_DISTANCE <= field_spec(false, pos) <= MAX_DISTANCE,
    ensures
        ({
            let dir = origin().minus(pos.unit());
            let next = pos.plus(dir.scaled(field_spec(false, pos)));
            0 <= field_spec(false, next) < 20
        }),
{
    let d = field_spec(false, pos);
    let dir = origin().minus(pos.unit());
    let next = pos.plus(dir.scaled(d));
    assert(pos.minus(origin()) == pos);
    assert(next.minus(origin()) == next);
    lemma_length_bounds(pos, magnitude(pos.x) + magnitude(pos.y) + magnitude(pos.z));
    let len = pos.length_up();
    let k = len - d;
    assert(1_000_000 <= k <= 1_000_001);
    assert(pos.norm2() > 0);
    lemma_unit_norm(pos);
    assert(dir.norm2() == pos.unit().norm2()) by (nonlinear_arith)
        requires
            dir.x == -pos.unit().x,
            dir.y == -pos.unit().y,
            dir.z == -pos.unit().z,
    ;
    lemma_sphere_step_stays_outside(origin(), ONE as int, pos, dir);
    lemma_head_on_component(pos.x, len, d);
    lemma_head_on_component(pos.y, len, d);
    lemma_head_on_component(pos.z, len, d);
    let e = 6 * len;
    let m = len * k;
    crate::fixed::lemma_product_bound(pos.x, k, len, k);
    crate::fixed::lemma_product_bound(pos.y, k, len, k);
    crate::fixed::lemma_product_bound(pos.z, k, len, k);
    lemma_near_square(next.x * len, pos.x * k, m, e);
    lemma_near_square(next.y * len, pos.y * k, m, e);
    lemma_near_square(next.z * len, pos.z * k, m, e);
    let n = next.norm2() as int;
    let a = pos.norm2() as int;
    let len2 = len * len;
    assert(next.x * next.x >= 0 && next.y * next.y >= 0 && next.z * next.z >= 0 && pos.x * pos.x >= 0
        && pos.y * pos.y >= 0 && pos.z * pos.z >= 0) by (nonlinear_arith);
    crate::math::lemma_pairing(next.x, len, next.x, len);
    crate::math::lemma_pairing(next.y, len, next.y, len);
    crate::math::lemma_pairing(next.z, len, next.z, len);
    crate::math::lemma_pairing(pos.x, k, pos.x, k);
    crate::math::lemma_pairing(pos.y, k, pos.y, k);
    crate::math::lemma_pairing(pos.z, k, pos.z, k);
    crate::math::lemma_three_terms(next.x * next.x, next.y * next.y, next.z * next.z, len2);
    crate::math::lemma_three_terms(pos.x * pos.x, pos.y * pos.y, pos.z * pos.z, k * k);
    assert((next.x * len) * (next.x * len) + (next.y * len) * (next.y * len) + (next.z * len) * (next.z
        * len) == n * len2);
    assert((pos.x * k) * (pos.x * k) + (pos.y * k) * (pos.y * k) + (pos.z * k) * (pos.z * k) == a * (k
        * k));
    assert(m * e == 6 * k * len2 && e * e == 36 * len2) by (nonlinear_arith)
        requires
            e == 6 * len,
            m == len * k,
            len2 == len * len,
    ;
    assert(a * (k * k) <= len2 * (k * k)) by (nonlinear_arith)
        requires
            0 <= a <= len2,
    ;
    let cap = k * k + 36 * k + 108;
    assert(n * len2 <= cap * len2) by (nonlinear_arith)
        requires
            n * len2 <= a * (k * k) + 3 * (2 * (6 * k * len2)) + 3 * (36 * len2),
            a * (k * k) <= len2 * (k * k),
            cap == k * k + 36 * k + 108,
    ;
    assert(n <= cap) by (nonlinear_arith)
        requires
            n * len2 <= cap * len2,
            len2 > 0,
    ;
    assert(cap < (k + 18) * (k + 18)) by (nonlinear_arith)
        requires
            cap == k * k + 36 * k + 108,
    ;
    lemma_root_exists(next.norm2());
    let r = next.length();
    assert(r < k + 18) by (nonlinear_arith)
        requires
            r * r <= n,
            n < (k + 18) * (k + 18),
            0 <= r,
            0 <= k,
    ;
}

/// A ray aimed at the centre of the plain sphere from a point outside it,
/// no farther than `MAX_DISTANCE`, is shaded where its first step ends.
pub proof fn lemma_head_on_hits(pos: Vector)
    requires
        MIN_DISTANCE <= field_spec(false, pos) <= MAX_DISTANCE,
    ensures
        ({
            let dir = origin().minus(pos.unit());
            let next = pos.plus(dir.scaled(field_spec(false, pos)));
            cast_spec(false, pos, dir) == shade_spec(false, next)
        }),
{
    lemma_head_on_step(pos);
    let dir = origin().minus(pos.unit());
    let next = pos.plus(dir.scaled(field_spec(false, pos)));
    assert(crate::marcher::march_spec(false, next, dir, 99) == shade_spec(false, next));
}

} // verus!
