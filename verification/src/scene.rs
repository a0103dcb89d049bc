//! The scene: the background and the orbit of the camera.
use vstd::prelude::*;
use crate::color::{black_spec, Channels, Color};
use crate::fixed::{cos, cos_spec, magnitude, quot, sin, sin_spec, ONE};
use crate::math::{lemma_cross_bound, lemma_cross_is_square, lemma_length_bounds, lemma_nonzero, lemma_unit_component_lower,
    lemma_unit_nonzero, lemma_unit_norm, lemma_scaled_bound, Vec3, Vector};
use crate::utils::{Camera, Pose, WORLD};

verus! {

/// Radius of the camera's orbit, before the height is added.
pub const ORBIT_RADIUS: i64 = 2_000_000;

/// Height of the camera above the orbit's plane, as a fraction of the radius.
pub const ORBIT_HEIGHT: i64 = 600_000;

/// The colour of the background.
pub open spec fn sky_spec() -> Channels {
    black_spec()
}

/// The colour of the background.
pub fn sky_color() -> (c: Color)
    ensures
        c@ == sky_spec(),
{
    Color::black()
}

/// The zero vector.
pub open spec fn origin() -> Vector {
    Vector { x: 0, y: 0, z: 0 }
}

/// The world's upward axis.
pub open spec fn up() -> Vector {
    Vector { x: 0, y: 0, z: ONE as int }
}

/// Where the camera stands at orbit angle `t`.
pub open spec fn orbit_spec(t: int) -> Vector {
    Vector { x: cos_spec(t), y: sin_spec(t), z: ORBIT_HEIGHT as int }.scaled(ORBIT_RADIUS as int)
}

/// The camera at `pos` that looks along `dir`: its first base vector is
/// horizontal, its second completes the frame. A base vector whose cross
/// product vanishes is the zero vector.
pub open spec fn look_spec(pos: Vector, dir: Vector) -> Pose {
    let base1 = origin().minus(up().cross(dir).unit_or_zero());
    let base2 = dir.cross(base1).unit_or_zero();
    Pose { pos, dir, base1, base2 }
}

/// The camera at orbit angle `t`: it stands on the orbit and looks at the
/// origin.
pub open spec fn camera_spec(t: int) -> Pose {
    look_spec(orbit_spec(t), origin().minus(orbit_spec(t).unit()))
}

/// The camera at orbit angle `t`.
pub fn construct_camera(t: i64) -> (c: Camera)
    ensures
        c@ == camera_spec(t as int),
        c@.steady(),
{
    proof {
        lemma_orbit_frame(t as int);
    }
    let at: Vec3 = Vec3::new(cos(t), sin(t), ORBIT_HEIGHT);
    proof {
        lemma_scaled_bound(at@, ORBIT_RADIUS as int, 1_000_000, 2_000_000, 2_000_000);
    }
    let pos: Vec3 = at * ORBIT_RADIUS;
    assert(pos@.z == 1_200_000) by {
        crate::fixed::lemma_quot_range(ORBIT_HEIGHT * ORBIT_RADIUS, 1_200_000, 1_200_000);
    }
    proof {
        lemma_length_bounds(pos@, 2_000_000);
    }
    let dir: Vec3 = Vec3::zero() - pos.normalize();
    let base0: Vec3 = Vec3::new(0, 0, ONE);
    proof {
        lemma_cross_bound(base0@, dir@, 1_000_000, 1_000_000, 2_000_000);
    }
    let base1: Vec3 = Vec3::zero() - base0.cross(dir).normalize_or_zero();
    proof {
        lemma_cross_bound(dir@, base1@, 1_000_000, 1_000_000, 2_000_000);
    }
    let base2: Vec3 = dir.cross(base1).normalize_or_zero();
    Camera::from(pos, dir, base1, base2)
}

/// A product of two factors of magnitude at least `m` and `n`, scaled back
/// by `ONE`, has magnitude at least any `k` with `k * ONE <= m * n`.
proof fn lemma_product_large(a: int, b: int, m: int, n: int, k: int)
    requires
        0 <= m <= magnitude(a),
        0 <= n <= magnitude(b),
        1 <= k,
        k * 1_000_000 <= m * n,
    ensures
        magnitude(quot(a * b, ONE as int)) >= k,
        magnitude(quot(-(a * b), ONE as int)) >= k,
{
    let p = a * b;
    assert(magnitude(p) >= m * n) by (nonlinear_arith)
        requires
            p == a * b,
            0 <= m <= magnitude(a),
            0 <= n <= magnitude(b),
    ;
    if p >= 0 {
        crate::fixed::lemma_quot_range(p, k, p);
        crate::fixed::lemma_quot_range(-p, -p, -k);
    } else {
        crate::fixed::lemma_quot_range(p, p, -k);
        crate::fixed::lemma_quot_range(-p, k, -p);
    }
}

/// Where `x` times a length of at least 50999 is within three times `ONE`
/// squared plus three times `ONE` times the length of zero, `x` is within
/// sixty-two times `ONE` of zero.
proof fn lemma_skew_bound(x: int, len: int)
    by (nonlinear_arith)
    requires
        50_999 <= len,
        -(3_000_000_000_000 + 3_000_000 * len) <= x * len <= 3_000_000_000_000 + 3_000_000 * len,
    ensures
        -62_000_000 <= x <= 62_000_000,
{
}

/// The frame of a camera whose viewing direction has a horizontal component
/// of magnitude at least `0.35` and a vertical component of magnitude at
/// least `0.3` is steady: no direction is zero and each pair is square.
pub proof fn lemma_frame_steady(pos: Vector, dir: Vector)
    requires
        pos.within(WORLD as int),
        dir.within(ONE as int),
        magnitude(dir.x) >= 350_000 || magnitude(dir.y) >= 350_000,
        magnitude(dir.z) >= 300_000,
    ensures
        look_spec(pos, dir).steady(),
{
    let w = up().cross(dir);
    crate::fixed::lemma_quot_range(0 * dir.z - ONE * dir.y, -dir.y, -dir.y);
    crate::fixed::lemma_quot_range(ONE * dir.x - 0 * dir.z, dir.x, dir.x);
    crate::fixed::lemma_quot_range(0 * dir.y - 0 * dir.x, 0, 0);
    assert(w == Vector { x: -dir.y, y: dir.x, z: 0 });
    lemma_nonzero(w);
    lemma_nonzero(dir);
    lemma_length_bounds(w, 1_000_000);
    let len = w.length_up();
    let u = w.unit();
    let base1 = origin().minus(u);
    assert(base1 == origin().minus(w.unit_or_zero()));
    crate::fixed::lemma_quot_remainder(0, len);
    assert(0 * ONE == 0);
    assert(u.z == 0) by {
        assert(quot(0, len) * len == 0int ==> quot(0, len) == 0) by (nonlinear_arith)
            requires
                len > 0,
        ;
    }
    lemma_unit_norm(w);
    crate::math::lemma_unit_component(w.x, len);
    crate::math::lemma_unit_component(w.y, len);
    let c = dir.cross(base1);
    if magnitude(dir.x) >= 350_000 {
        lemma_unit_component_lower(w.y, len, 17, 100);
        assert(magnitude(base1.y) >= 169_999);
        lemma_product_large(dir.z, base1.y, 300_000, 169_999, 50_999);
        assert(dir.y * base1.z - dir.z * base1.y == -(dir.z * base1.y)) by (nonlinear_arith)
            requires
                base1.z == 0,
        ;
        assert(magnitude(c.x) >= 50_999);
    } else {
        lemma_unit_component_lower(w.x, len, 17, 100);
        assert(magnitude(base1.x) >= 169_999);
        lemma_product_large(dir.z, base1.x, 300_000, 169_999, 50_999);
        assert(dir.z * base1.x - dir.x * base1.z == dir.z * base1.x) by (nonlinear_arith)
            requires
                base1.z == 0,
        ;
        assert(magnitude(c.y) >= 50_999);
    }
    lemma_nonzero(base1);
    lemma_nonzero(c);
    lemma_unit_nonzero(c);
    let base2 = c.unit();
    assert(base2 == c.unit_or_zero());
    lemma_cross_bound(dir, base1, 1_000_000, 1_000_000, 2_000_000);
    lemma_length_bounds(c, 2_000_000);
    let len2 = c.length_up();
    assert(len2 >= 50_999);
    crate::math::lemma_unit_component(c.x, len2);
    crate::math::lemma_unit_component(c.y, len2);
    crate::math::lemma_unit_component(c.z, len2);
    // The first base vector against the viewing direction.
    assert(w.inner(dir) == 0) by (nonlinear_arith)
        requires
            w.x == -dir.y,
            w.y == dir.x,
            w.z == 0,
            w.inner(dir) == w.x * dir.x + w.y * dir.y + w.z * dir.z,
    ;
    crate::math::lemma_unit_inner(w, dir, 1_000_000);
    let i1 = u.inner(dir);
    assert(ONE * w.inner(dir) == 0);
    assert(-3_000_000 <= i1 <= 3_000_000) by (nonlinear_arith)
        requires
            -3 * (len * 1_000_000) <= i1 * len <= 3 * (len * 1_000_000),
            len > 0,
    ;
    assert(dir.inner(base1) == -i1) by (nonlinear_arith)
        requires
            base1.x == -u.x,
            base1.y == -u.y,
            base1.z == -u.z,
            i1 == u.x * dir.x + u.y * dir.y + u.z * dir.z,
            dir.inner(base1) == dir.x * base1.x + dir.y * base1.y + dir.z * base1.z,
    ;
    crate::fixed::lemma_quot_one(dir.inner(base1), 3);
    // The second base vector against the other two.
    lemma_cross_is_square(dir, base1, 1_000_000);
    crate::math::lemma_unit_inner(c, dir, 1_000_000);
    crate::math::lemma_unit_inner(c, base1, 1_000_000);
    let i2 = base2.inner(dir);
    let i3 = base2.inner(base1);
    assert(ONE * c.inner(dir) == 1_000_000 * c.inner(dir) && ONE * c.inner(base1) == 1_000_000
        * c.inner(base1));
    assert(3 * (len2 * 1_000_000) == 3_000_000 * len2) by (nonlinear_arith);
    lemma_skew_bound(i2, len2);
    lemma_skew_bound(i3, len2);
    assert(dir.inner(base2) == i2 && base1.inner(base2) == i3) by (nonlinear_arith)
        requires
            i2 == base2.x * dir.x + base2.y * dir.y + base2.z * dir.z,
            i3 == base2.x * base1.x + base2.y * base1.y + base2.z * base1.z,
            dir.inner(base2) == dir.x * base2.x + dir.y * base2.y + dir.z * base2.z,
            base1.inner(base2) == base1.x * base2.x + base1.y * base2.y + base1.z * base2.z,
    ;
    crate::fixed::lemma_quot_one(dir.inner(base2), 62);
    crate::fixed::lemma_quot_one(base1.inner(base2), 62);
    // The viewing direction is long enough.
    let mx = magnitude(dir.x);
    let my = magnitude(dir.y);
    let mz = magnitude(dir.z);
    assert(mx * mx == dir.x * dir.x && my * my == dir.y * dir.y && mz * mz == dir.z * dir.z)
        by (nonlinear_arith)
        requires
            mx == magnitude(dir.x),
            my == magnitude(dir.y),
            mz == magnitude(dir.z),
    ;
    assert(5 * (dir.x * dir.x + dir.y * dir.y + dir.z * dir.z) >= 1_000_000_000_000)
        by (nonlinear_arith)
        requires
            mx * mx == dir.x * dir.x,
            my * my == dir.y * dir.y,
            mz * mz == dir.z * dir.z,
            mx >= 350_000 || my >= 350_000,
            mz >= 300_000,
            mx >= 0,
            my >= 0,
    ;
    assert(ONE * ONE == 1_000_000_000_000) by (nonlinear_arith);
}

/// On the whole orbit the camera is steady: it never stands on the upward
/// axis, so neither cross product vanishes, none of its three directions is
/// the zero vector, and each pair of them is square.
pub proof fn lemma_orbit_frame(t: int)
    ensures
        camera_spec(t).steady(),
{
    let c = cos_spec(t);
    let s = sin_spec(t);
    crate::fixed::lemma_sin_cos_bounds(t);
    crate::fixed::lemma_sin_or_cos_large(t);
    let pos = orbit_spec(t);
    crate::fixed::lemma_quot_range(c * ORBIT_RADIUS, 2 * c, 2 * c);
    crate::fixed::lemma_quot_range(s * ORBIT_RADIUS, 2 * s, 2 * s);
    crate::fixed::lemma_quot_range(ORBIT_HEIGHT * ORBIT_RADIUS, 1_200_000, 1_200_000);
    assert(pos == Vector { x: 2 * c, y: 2 * s, z: 1_200_000 });
    lemma_length_bounds(pos, 2_000_000);
    let len = pos.length_up();
    let u = pos.unit();
    let dir = origin().minus(u);
    lemma_unit_component_lower(pos.z, len, 3, 10);
    crate::math::lemma_unit_component(pos.x, len);
    crate::math::lemma_unit_component(pos.y, len);
    crate::math::lemma_unit_component(pos.z, len);
    if magnitude(c) >= 700_000 {
        lemma_unit_component_lower(pos.x, len, 35, 100);
    } else {
        lemma_unit_component_lower(pos.y, len, 35, 100);
    }
    lemma_frame_steady(pos, dir);
}

/// On the whole orbit every point of the screen has its ray: the direction
/// through the screen coordinates `u`, `v`, each between minus one and one,
/// is a unit vector and never the zero vector.
pub proof fn lemma_orbit_rays(t: int, u: int, v: int)
    requires
        -ONE <= u <= ONE,
        -ONE <= v <= ONE,
    ensures
        camera_spec(t).ray_dir(u, v) == camera_spec(t).aim(u, v).unit(),
        0 < camera_spec(t).ray_dir(u, v).norm2() <= ONE * ONE,
{
    lemma_orbit_frame(t);
    crate::utils::lemma_aim_not_zero(camera_spec(t), u, v);
    lemma_unit_norm(camera_spec(t).aim(u, v));
    lemma_unit_nonzero(camera_spec(t).aim(u, v));
}

} // verus!
