//! Shapes given by their signed distance to a point.
use vstd::prelude::*;
use crate::fixed::{fits, ONE, LIMIT};
use crate::math::{lemma_length_bounds, Vec3, Vector};

verus! {

/// A shape that knows the signed distance from any point to its surface:
/// negative inside, zero on the surface, positive outside.
pub trait Object3d {
    /// The points from which the distance can be computed without overflow.
    spec fn reaches(&self, pos: Vector) -> bool;

    /// The signed distance from `pos` to the surface.
    spec fn dist_spec(&self, pos: Vector) -> int;

    /// The signed distance from `pos` to the surface.
    fn get_dist(&self, pos: Vec3) -> (d: i64)
        requires
            self.reaches(pos@),
        ensures
            d == self.dist_spec(pos@),
    ;
}

/// The signed distance from `pos` to the sphere of the given centre and
/// radius.
pub open spec fn sphere_dist(center: Vector, radius: int, pos: Vector) -> int {
    pos.minus(center).length() - radius
}

/// The largest of three integers.
pub open spec fn max3(a: int, b: int, c: int) -> int {
    if a >= b && a >= c {
        a
    } else if b >= c {
        b
    } else {
        c
    }
}

/// The offsets of `pos` from the faces of the box, per axis: positive
/// outside the slab of that axis, negative inside.
pub open spec fn box_offsets(center: Vector, sides: Vector, pos: Vector) -> Vector {
    pos.minus(center).abs().minus(sides.divided(2 * ONE))
}

/// The signed distance from `pos` to the axis-aligned box of the given centre
/// and side lengths.
pub open spec fn box_dist(center: Vector, sides: Vector, pos: Vector) -> int {
    let q = box_offsets(center, sides, pos);
    let inside = max3(q.x, q.y, q.z);
    q.max(0).length() + if inside < 0 { inside } else { 0 }
}

/// A sphere.
pub struct Sphere {
    pos: Vec3,
    rad: i64,
}

impl Sphere {
    /// The centre.
    pub closed spec fn center(&self) -> Vector {
        self.pos@
    }

    /// The radius.
    pub closed spec fn radius(&self) -> int {
        self.rad as int
    }

    /// The sphere of radius `rad` around `pos`.
    pub fn from(pos: Vec3, rad: i64) -> (s: Self)
        ensures
            s.center() == pos@,
            s.radius() == rad,
    {
        Self { pos, rad }
    }
}

impl Object3d for Sphere {
    open spec fn reaches(&self, pos: Vector) -> bool {
        pos.minus(self.center()).within(LIMIT as int) && fits(self.dist_spec(pos))
    }

    open spec fn dist_spec(&self, pos: Vector) -> int {
        sphere_dist(self.center(), self.radius(), pos)
    }

    fn get_dist(&self, pos: Vec3) -> (d: i64) {
        (pos - self.pos).length() - self.rad
    }
}

/// An axis-aligned box.
pub struct Rec {
    pos: Vec3,
    sides: Vec3,
}

impl Rec {
    /// The centre.
    pub closed spec fn center(&self) -> Vector {
        self.pos@
    }

    /// The full side lengths along the three axes.
    pub closed spec fn extents(&self) -> Vector {
        self.sides@
    }

    /// The box around `pos` with the side lengths `sides`.
    pub fn from(pos: Vec3, sides: Vec3) -> (b: Self)
        ensures
            b.center() == pos@,
            b.extents() == sides@,
    {
        Self { pos, sides }
    }
}

impl Object3d for Rec {
    open spec fn reaches(&self, pos: Vector) -> bool {
        &&& pos.minus(self.center()).within(LIMIT as int)
        &&& box_offsets(self.center(), self.extents(), pos).max(0).within(LIMIT as int)
    }

    open spec fn dist_spec(&self, pos: Vector) -> int {
        box_dist(self.center(), self.extents(), pos)
    }

    fn get_dist(&self, pos: Vec3) -> (d: i64) {
        proof {
            crate::fixed::lemma_quot_bounds(self.sides.x * ONE, 2 * ONE);
            crate::fixed::lemma_quot_bounds(self.sides.y * ONE, 2 * ONE);
            crate::fixed::lemma_quot_bounds(self.sides.z * ONE, 2 * ONE);
            assert(crate::fixed::magnitude(self.sides.x * ONE) == crate::fixed::magnitude(self.sides.x as int) * 1_000_000);
            assert(crate::fixed::magnitude(self.sides.y * ONE) == crate::fixed::magnitude(self.sides.y as int) * 1_000_000);
            assert(crate::fixed::magnitude(self.sides.z * ONE) == crate::fixed::magnitude(self.sides.z as int) * 1_000_000);
        }
        let half: Vec3 = self.sides / 2_000_000;
        let q: Vec3 = (pos - self.pos).abs() - half;
        let outside: i64 = q.max(0).length();
        let mut inside: i64 = if q.x >= q.y && q.x >= q.z {
            q.x
        } else if q.y >= q.z {
            q.y
        } else {
            q.z
        };
        if inside > 0 {
            inside = 0;
        }
        proof {
            lemma_length_bounds(q@.max(0), LIMIT as int);
        }
        outside + inside
    }
}

/// The distance to a sphere around the origin is the length of the point
/// less the radius, and that length is the square root of the squared
/// coordinates, rounded down to a raw unit.
pub proof fn lemma_sphere_distance(s: Sphere, pos: Vector)
    requires
        s.center() == (Vector { x: 0, y: 0, z: 0 }),
    ensures
        s.dist_spec(pos) == pos.length() - s.radius(),
        0 <= pos.length(),
        pos.length() * pos.length() <= pos.x * pos.x + pos.y * pos.y + pos.z * pos.z < (pos.length() + 1)
            * (pos.length() + 1),
{
    assert(pos.minus(s.center()) == pos);
    crate::fixed::lemma_root_exists(pos.norm2());
    let m = crate::fixed::magnitude(pos.x) + crate::fixed::magnitude(pos.y) + crate::fixed::magnitude(
        pos.z,
    );
    lemma_length_bounds(pos, m);
}

/// Marching never overshoots a sphere: from a point outside it or on it, a
/// step of the evaluated distance along a direction no longer than one ends
/// outside the sphere or on it.
pub proof fn lemma_sphere_step_stays_outside(center: Vector, radius: int, pos: Vector, dir: Vector)
    requires
        0 <= radius,
        dir.norm2() <= ONE * ONE,
        0 <= sphere_dist(center, radius, pos),
    ensures
        0 <= sphere_dist(center, radius, pos.plus(dir.scaled(sphere_dist(center, radius, pos)))),
{
    let d = sphere_dist(center, radius, pos);
    let q = pos.minus(center);
    let v = dir.scaled(d);
    crate::math::lemma_step_norm(dir, d);
    crate::math::lemma_moved_length(q, v, radius + d, d);
    assert(pos.plus(v).minus(center) == q.plus(v));
}

} // verus!
