//! The marcher: distance field, sphere marching, shading and the frame.
use vstd::prelude::*;
use rayon::iter::{IntoParallelIterator, ParallelIterator};
use crate::color::{black_spec, white_spec, Channels, Color};
use crate::fixed::{lemma_quot_bounds, magnitude, product, product_spec, quot, sin, sin_spec, wide_quot, LIMIT, ONE};
use crate::math::{lemma_dot_of_units, lemma_length_bounds, lemma_scaled_bound, Vec3, Vector};
use crate::primitives::{sphere_dist, Object3d, Sphere};
use crate::scene::{camera_spec, construct_camera, origin, sky_color, sky_spec};
use crate::utils::{default_pose, max_spec, Camera, Pose, Ray, WORLD};

verus! {

/// The most steps that one ray takes.
pub const ITERATIONS_LIMIT: usize = 100;

/// A ray farther than this from every surface has missed.
pub const MAX_DISTANCE: i64 = 5_000_000;

/// A ray closer than this to a surface has hit it.
pub const MIN_DISTANCE: i64 = 1_000;

/// Samples per pixel along each axis.
pub const RAYS_PER_PIXEL_SQRT: usize = 2;

/// The least intensity of a shaded point.
pub const AMBIENT: i64 = 100_000;

/// Half the width of the differences that estimate the normal.
pub const STEP: i64 = 1_000;

/// How often the ripple repeats along the first axis.
pub const RIPPLE_FREQUENCY: i64 = 20;

/// Height of the ripple.
pub const RIPPLE_AMPLITUDE: i64 = 250_000;

/// Largest coordinate magnitude at which the field is shaded.
pub const REACH: i64 = 200_000_000_000;

/// Where the light stands.
pub open spec fn light_spec() -> Vector {
    Vector { x: 2 * ONE, y: 5 * ONE, z: -5 * ONE }
}

/// The displacement that the ripple adds to the field at `p`.
pub open spec fn ripple_spec(p: Vector) -> int {
    product_spec(sin_spec(RIPPLE_FREQUENCY * p.x), RIPPLE_AMPLITUDE as int)
}

/// The distance field of the scene at `p`: a unit sphere around the origin,
/// with the ripple added where `ripple` is set.
pub open spec fn field_spec(ripple: bool, p: Vector) -> int {
    sphere_dist(origin(), ONE as int, p) + if ripple {
        ripple_spec(p)
    } else {
        0
    }
}

/// The central differences of the field at `p` along the three axes.
pub open spec fn gradient_spec(ripple: bool, p: Vector) -> Vector {
    let dx = Vector { x: STEP as int, y: 0, z: 0 };
    let dy = Vector { x: 0, y: STEP as int, z: 0 };
    let dz = Vector { x: 0, y: 0, z: STEP as int };
    Vector {
        x: field_spec(ripple, p.plus(dx)) - field_spec(ripple, p.minus(dx)),
        y: field_spec(ripple, p.plus(dy)) - field_spec(ripple, p.minus(dy)),
        z: field_spec(ripple, p.plus(dz)) - field_spec(ripple, p.minus(dz)),
    }
}

/// The estimated surface normal at `p`; the zero vector where the
/// differences all vanish.
pub open spec fn normal_spec(ripple: bool, p: Vector) -> Vector {
    gradient_spec(ripple, p).unit_or_zero()
}

/// The intensity of the light at `p`, never below `AMBIENT`.
pub open spec fn intensity_spec(ripple: bool, p: Vector) -> int {
    max_spec(normal_spec(ripple, p).dot(p.minus(light_spec()).unit_or_zero()), AMBIENT as int)
}

/// The colour of the surface at `p`.
pub open spec fn shade_spec(ripple: bool, p: Vector) -> Channels {
    white_spec().scaled(intensity_spec(ripple, p))
}

/// The colour that a ray at `pos` along `dir` finds with `budget` steps left:
/// the shade of `pos` once the field falls below `MIN_DISTANCE`, the sky once
/// it passes `MAX_DISTANCE`, and the shade of wherever the ray stands when
/// the budget runs out.
pub open spec fn march_spec(ripple: bool, pos: Vector, dir: Vector, budget: nat) -> Channels
    decreases budget,
{
    let d = field_spec(ripple, pos);
    if budget == 0 {
        shade_spec(ripple, pos)
    } else if d < MIN_DISTANCE {
        shade_spec(ripple, pos)
    } else if d > MAX_DISTANCE {
        sky_spec()
    } else {
        march_spec(ripple, pos.plus(dir.scaled(d)), dir, (budget - 1) as nat)
    }
}

/// The colour that the ray from `pos` along `dir` finds.
pub open spec fn cast_spec(ripple: bool, pos: Vector, dir: Vector) -> Channels {
    march_spec(ripple, pos, dir, ITERATIONS_LIMIT as nat)
}

/// The colour seen through the screen coordinates `u`, `v`.
pub open spec fn sample_spec(pose: Pose, ripple: bool, u: int, v: int) -> Channels {
    cast_spec(ripple, pose.pos, pose.ray_dir(u, v))
}

/// The screen coordinate of sample `i` (counted from one) in the cell `cell`
/// of a row or column of `side` cells: the cell's lower edge, moved into the
/// cell by `i` parts of `RAYS_PER_PIXEL_SQRT + 1`, on a scale where the
/// screen runs from minus one to one.
pub open spec fn coord_spec(side: int, cell: int, i: int) -> int {
    quot(
        ((RAYS_PER_PIXEL_SQRT + 1) * (2 * cell - side) + 2 * i) * ONE,
        (RAYS_PER_PIXEL_SQRT + 1) * side,
    )
}

/// The sum of the first `count` samples of the pixel at `row`, `col`, taken
/// column by column of the sample grid.
pub open spec fn samples_spec(pose: Pose, ripple: bool, side: int, row: int, col: int, count: nat) -> Channels
    decreases count,
{
    if count == 0 {
        black_spec()
    } else {
        let s = count - 1;
        let u = coord_spec(side, col, s / (RAYS_PER_PIXEL_SQRT as int) + 1);
        let v = coord_spec(side, row, s % (RAYS_PER_PIXEL_SQRT as int) + 1);
        samples_spec(pose, ripple, side, row, col, s as nat).plus(sample_spec(pose, ripple, u, v))
    }
}

/// The colour of the pixel `index`, counted row by row: the mean of its
/// samples. The column gives the first screen coordinate, the row the second.
pub open spec fn pixel_spec(pose: Pose, ripple: bool, side: int, index: int) -> Channels {
    samples_spec(
        pose,
        ripple,
        side,
        index / side,
        index % side,
        (RAYS_PER_PIXEL_SQRT * RAYS_PER_PIXEL_SQRT) as nat,
    ).divided(RAYS_PER_PIXEL_SQRT * RAYS_PER_PIXEL_SQRT * ONE)
}

/// The image as bytes: row by row, four bytes to the pixel.
pub open spec fn frame_spec(pose: Pose, ripple: bool, side: int) -> Seq<u8> {
    Seq::new(
        (4 * (side * side)) as nat,
        |k: int| pixel_spec(pose, ripple, side, k / 4).bytes()[k % 4],
    )
}

/// The screen coordinate of sample `i` in the cell `cell`.
fn coord(side: usize, cell: usize, i: usize) -> (c: i64)
    requires
        cell < side,
        side <= 0x1_0000_0000,
        1 <= i <= RAYS_PER_PIXEL_SQRT,
    ensures
        c == coord_spec(side as int, cell as int, i as int),
        -ONE <= c <= ONE,
{
    let parts: i128 = RAYS_PER_PIXEL_SQRT as i128 + 1;
    assert(parts == 3);
    let num: i128 = (parts * (2 * (cell as i128) - side as i128) + 2 * (i as i128)) * 1_000_000;
    let den: i128 = parts * (side as i128);
    proof {
        lemma_quot_bounds(num as int, den as int);
        let q = magnitude(quot(num as int, den as int));
        assert(magnitude(num as int) <= den * 1_000_000);
        assert(q <= ONE) by (nonlinear_arith)
            requires
                q * den <= den * 1_000_000,
                den > 0,
        ;
    }
    wide_quot(num, den) as i64
}

/// The field stays within twice the coordinate bound, give or take the
/// radius and the ripple.
pub proof fn lemma_field_bounds(ripple: bool, p: Vector, bound: int)
    requires
        p.within(bound),
    ensures
        -ONE - RIPPLE_AMPLITUDE <= field_spec(ripple, p) <= 2 * bound + RIPPLE_AMPLITUDE,
{
    lemma_length_bounds(p, bound);
    crate::fixed::lemma_sin_cos_bounds(RIPPLE_FREQUENCY * p.x);
    let s = sin_spec(RIPPLE_FREQUENCY * p.x);
    crate::fixed::lemma_quot_one(s * RIPPLE_AMPLITUDE, 250_000);
    assert(p.minus(origin()) == p);
}

/// The renderer of one square image.
pub struct Marcher {
    side: usize,
    camera: Camera,
    ripple: bool,
}

impl Marcher {
    /// The number of pixels along each side of the image.
    pub closed spec fn side(&self) -> nat {
        self.side as nat
    }

    /// The pose of the camera.
    pub closed spec fn pose(&self) -> Pose {
        self.camera@
    }

    /// Whether the sphere carries the ripple.
    pub closed spec fn rippled(&self) -> bool {
        self.ripple
    }

    /// The bytes that `draw` writes at orbit angle `t`.
    pub open spec fn drawn(&self, t: int) -> Seq<u8> {
        frame_spec(camera_spec(t), self.rippled(), self.side() as int)
    }

    /// Whether the image has at least one pixel, its buffer has a length that
    /// fits the machine, and the camera is well-formed.
    pub open spec fn wf(&self) -> bool {
        &&& 1 <= self.side()
        &&& 4 * (self.side() * self.side()) <= usize::MAX
        &&& self.pose().wf()
    }

    /// The distance field of the scene at `pos`.
    pub fn dist(&self, pos: Vec3) -> (d: i64)
        requires
            pos@.within(LIMIT as int),
        ensures
            d == field_spec(self.rippled(), pos@),
    {
        proof {
            lemma_field_bounds(self.ripple, pos@, LIMIT as int);
            lemma_length_bounds(pos@, LIMIT as int);
            assert(pos@.minus(origin()) == pos@);
            crate::fixed::lemma_sin_cos_bounds(RIPPLE_FREQUENCY * pos.x);
            crate::fixed::lemma_quot_one(sin_spec(RIPPLE_FREQUENCY * pos.x) * RIPPLE_AMPLITUDE, 250_000);
        }
        let sphere_dist: i64 = Sphere::from(Vec3::zero(), ONE).get_dist(pos);
        if self.ripple {
            sphere_dist + product(sin(RIPPLE_FREQUENCY * pos.x), RIPPLE_AMPLITUDE)
        } else {
            sphere_dist
        }
    }

    /// The estimated surface normal at `pos`.
    pub fn normal(&self, pos: Vec3) -> (n: Vec3)
        requires
            pos@.within(REACH as int),
        ensures
            n@ == normal_spec(self.rippled(), pos@),
            n@.within(ONE as int),
            n@.norm2() <= ONE * ONE,
    {
        let step_x: Vec3 = Vec3::new(STEP, 0, 0);
        let step_y: Vec3 = Vec3::new(0, STEP, 0);
        let step_z: Vec3 = Vec3::new(0, 0, STEP);
        proof {
            lemma_field_bounds(self.ripple, pos@.plus(step_x@), REACH + STEP);
            lemma_field_bounds(self.ripple, pos@.minus(step_x@), REACH + STEP);
            lemma_field_bounds(self.ripple, pos@.plus(step_y@), REACH + STEP);
            lemma_field_bounds(self.ripple, pos@.minus(step_y@), REACH + STEP);
            lemma_field_bounds(self.ripple, pos@.plus(step_z@), REACH + STEP);
            lemma_field_bounds(self.ripple, pos@.minus(step_z@), REACH + STEP);
        }
        let gradient_x: i64 = self.dist(pos + step_x) - self.dist(pos - step_x);
        let gradient_y: i64 = self.dist(pos + step_y) - self.dist(pos - step_y);
        let gradient_z: i64 = self.dist(pos + step_z) - self.dist(pos - step_z);
        Vec3::new(gradient_x, gradient_y, gradient_z).normalize_or_zero()
    }

    /// The colour of the surface at `pos`.
    pub fn shade(&self, pos: Vec3) -> (c: Color)
        requires
            pos@.within(REACH as int),
        ensures
            c@ == shade_spec(self.rippled(), pos@),
            c@.between(AMBIENT as int, ONE as int),
    {
        let light_pos: Vec3 = Vec3::new(2_000_000, 5_000_000, -5_000_000);
        let norm: Vec3 = self.normal(pos);
        let dir_to_light: Vec3 = (pos - light_pos).normalize_or_zero();
        proof {
            lemma_dot_of_units(norm@, dir_to_light@);
        }
        let lit: i64 = norm.dot(dir_to_light);
        let intensity: i64 = if lit >= AMBIENT {
            lit
        } else {
            AMBIENT
        };
        proof {
            crate::fixed::lemma_quot_range(ONE * intensity, intensity as int, intensity as int);
        }
        Color::white() * intensity
    }

    /// The colour that `ray` finds: it steps by the field's value until the
    /// field falls below `MIN_DISTANCE` (shaded), passes `MAX_DISTANCE`
    /// (sky), or `ITERATIONS_LIMIT` steps are spent (shaded where it stands).
    pub fn cast_ray(&self, ray: Ray) -> (c: Color)
        requires
            ray.pos@.within(WORLD as int),
            ray.dir@.within(ONE as int),
        ensures
            c@ == cast_spec(self.rippled(), ray.pos@, ray.dir@),
            c@.between(0, ONE as int),
    {
        let mut pos: Vec3 = ray.pos;
        let mut left: usize = ITERATIONS_LIMIT;
        while left > 0
            invariant
                left <= ITERATIONS_LIMIT,
                pos@.within(WORLD + (ITERATIONS_LIMIT - left) * MAX_DISTANCE),
                ray.dir@.within(ONE as int),
                cast_spec(self.rippled(), ray.pos@, ray.dir@) == march_spec(
                    self.rippled(),
                    pos@,
                    ray.dir@,
                    left as nat,
                ),
            decreases left,
        {
            let dist: i64 = self.dist(pos);
            if dist < MIN_DISTANCE {
                return self.shade(pos);
            }
            if dist > MAX_DISTANCE {
                return sky_color();
            }
            proof {
                lemma_scaled_bound(ray.dir@, dist as int, 1_000_000, 5_000_000, 5_000_000);
            }
            pos = pos + ray.dir * dist;
            left = left - 1;
        }
        self.shade(pos)
    }

    /// The colour seen through the screen coordinates `u`, `v`, each between
    /// minus one and one.
    pub fn get_color(&self, u: i64, v: i64) -> (c: Color)
        requires
            self.wf(),
            -ONE <= u <= ONE,
            -ONE <= v <= ONE,
        ensures
            c@ == sample_spec(self.pose(), self.rippled(), u as int, v as int),
            c@.between(0, ONE as int),
    {
        let ray: Ray = self.camera.get_ray(u, v);
        self.cast_ray(ray)
    }

    /// The colour of the pixel `index`, counted row by row.
    pub fn pixel(&self, index: usize) -> (c: Color)
        requires
            self.wf(),
            index < self.side() * self.side(),
        ensures
            c@ == pixel_spec(self.pose(), self.rippled(), self.side() as int, index as int),
            c@.between(0, ONE as int),
    {
        proof {
            lemma_side_bound(self.side as int);
            assert(index / self.side < self.side) by (nonlinear_arith)
                requires
                    index < self.side * self.side,
                    self.side > 0,
            ;
        }
        let row: usize = index / self.side;
        let col: usize = index % self.side;
        let total: usize = RAYS_PER_PIXEL_SQRT * RAYS_PER_PIXEL_SQRT;
        let mut color: Color = Color::black();
        let mut s: usize = 0;
        while s < total
            invariant
                self.wf(),
                s <= total,
                total == RAYS_PER_PIXEL_SQRT * RAYS_PER_PIXEL_SQRT,
                row < self.side,
                col < self.side,
                self.side <= 0x1_0000_0000,
                color@ == samples_spec(
                    self.pose(),
                    self.rippled(),
                    self.side as int,
                    row as int,
                    col as int,
                    s as nat,
                ),
                color@.between(0, 1_000_000 * s),
            decreases total - s,
        {
            let u: i64 = coord(self.side, col, s / RAYS_PER_PIXEL_SQRT + 1);
            let v: i64 = coord(self.side, row, s % RAYS_PER_PIXEL_SQRT + 1);
            color = color + self.get_color(u, v);
            s = s + 1;
        }
        proof {
            lemma_mean(color.r as int);
            lemma_mean(color.g as int);
            lemma_mean(color.b as int);
        }
        color / 4_000_000
    }

    /// The colours of the first `count` pixels, computed in parallel.
    ///
    /// Trusted: rayon's `into_par_iter` on a range, `map` and `collect` into
    /// a `Vec` give, index by index and in order, what the mapped function
    /// returns for each index of the range.
    #[verifier::external_body]
    fn pixels(&self, count: usize) -> (colors: Vec<Color>)
        requires
            self.wf(),
            count == self.side() * self.side(),
        ensures
            colors@.len() == count,
            forall|i: int|
                0 <= i < count ==> (#[trigger] colors@[i])@ == pixel_spec(
                    self.pose(),
                    self.rippled(),
                    self.side() as int,
                    i,
                ),
    {
        (0..count).into_par_iter().map(|index| self.pixel(index)).collect()
    }

    /// A renderer of images of `side` by `side` pixels, with the camera at the
    /// origin and the ripple on.
    pub fn from(side: usize) -> (m: Self)
        requires
            1 <= side,
            4 * (side * side) <= usize::MAX,
        ensures
            m.wf(),
            m.side() == side,
            m.pose() == default_pose(),
            m.rippled(),
    {
        Self { side, camera: Camera::new(), ripple: true }
    }

    /// Turns the ripple on the sphere on or off.
    pub fn set_ripple(&mut self, on: bool)
        ensures
            final(self).rippled() == on,
            final(self).side() == old(self).side(),
            final(self).pose() == old(self).pose(),
            final(self).wf() == old(self).wf(),
    {
        self.ripple = on;
    }

    /// Puts `camera` in place of the current camera.
    pub fn set_camera(&mut self, camera: Camera)
        requires
            old(self).wf(),
            camera@.wf(),
        ensures
            final(self).wf(),
            final(self).pose() == camera@,
            final(self).side() == old(self).side(),
            final(self).rippled() == old(self).rippled(),
    {
        self.camera = camera;
    }

    /// Moves the camera to where it stands at orbit angle `t`.
    pub fn set_scene(&mut self, t: i64)
        requires
            old(self).wf(),
        ensures
            final(self).wf(),
            final(self).pose() == camera_spec(t as int),
            final(self).pose().steady(),
            final(self).side() == old(self).side(),
            final(self).rippled() == old(self).rippled(),
    {
        self.camera = construct_camera(t);
    }

    /// Renders the image seen by the current camera into `screen`, row by
    /// row, four bytes to the pixel: red, green, blue, and an opaque alpha.
    pub fn render(&self, screen: &mut [u8])
        requires
            self.wf(),
            old(screen)@.len() == 4 * (self.side() * self.side()),
        ensures
            final(screen)@ == frame_spec(self.pose(), self.rippled(), self.side() as int),
    {
        let count: usize = self.side * self.side;
        let colors: Vec<Color> = self.pixels(count);
        let ghost frame = frame_spec(self.pose(), self.rippled(), self.side() as int);
        let mut pos: usize = 0;
        while pos < count
            invariant
                pos <= count,
                4 * count <= usize::MAX,
                count == self.side() * self.side(),
                colors@.len() == count,
                screen@.len() == 4 * count,
                frame == frame_spec(self.pose(), self.rippled(), self.side() as int),
                forall|i: int|
                    0 <= i < count ==> (#[trigger] colors@[i])@ == pixel_spec(
                        self.pose(),
                        self.rippled(),
                        self.side() as int,
                        i,
                    ),
                forall|k: int| 0 <= k < 4 * pos ==> screen@[k] == frame[k],
            decreases count - pos,
        {
            let pix: [u8; 4] = colors[pos].into_u8();
            let base: usize = 4 * pos;
            screen[base] = pix[0];
            screen[base + 1] = pix[1];
            screen[base + 2] = pix[2];
            screen[base + 3] = pix[3];
            pos = pos + 1;
        }
        assert(screen@ =~= frame);
    }

    /// Renders the frame at orbit angle `t` into `screen`: the camera moves
    /// to its place on the orbit, then every pixel is computed and written.
    pub fn draw(&mut self, t: i64, screen: &mut [u8])
        requires
            old(self).wf(),
            old(screen)@.len() == 4 * (old(self).side() * old(self).side()),
        ensures
            final(self).wf(),
            final(self).side() == old(self).side(),
            final(self).rippled() == old(self).rippled(),
            final(self).pose() == camera_spec(t as int),
            final(screen)@ == old(self).drawn(t as int),
    {
        self.set_scene(t);
        self.render(screen);
    }
}

/// Where the ray stands after `steps` steps, each as long as the field's
/// value at its start.
pub open spec fn walk_spec(ripple: bool, pos: Vector, dir: Vector, steps: nat) -> Vector
    decreases steps,
{
    if steps == 0 {
        pos
    } else {
        let p = walk_spec(ripple, pos, dir, (steps - 1) as nat);
        p.plus(dir.scaled(field_spec(ripple, p)))
    }
}

/// Marching never overshoots the plain sphere: a ray that starts outside it
/// or on it, along a direction no longer than one, is outside it or on it
/// after any number of steps.
pub proof fn lemma_march_never_overshoots(pos: Vector, dir: Vector, steps: nat)
    requires
        dir.norm2() <= ONE * ONE,
        0 <= field_spec(false, pos),
    ensures
        0 <= field_spec(false, walk_spec(false, pos, dir, steps)),
    decreases steps,
{
    if steps > 0 {
        lemma_march_never_overshoots(pos, dir, (steps - 1) as nat);
        let p = walk_spec(false, pos, dir, (steps - 1) as nat);
        crate::primitives::lemma_sphere_step_stays_outside(origin(), ONE as int, p, dir);
    }
}

/// A ray that starts farther than `MAX_DISTANCE` from every surface sees
/// the sky, whichever way it points.
pub proof fn lemma_far_ray_sees_sky(ripple: bool, pos: Vector, dir: Vector)
    requires
        field_spec(ripple, pos) > MAX_DISTANCE,
    ensures
        cast_spec(ripple, pos, dir) == sky_spec(),
{
}

/// The intensity of a shaded point is never below `AMBIENT` and never above
/// one, and each channel of its colour is that intensity.
pub proof fn lemma_shade_floor(ripple: bool, pos: Vector)
    ensures
        AMBIENT <= intensity_spec(ripple, pos) <= ONE,
        shade_spec(ripple, pos) == (Channels {
            r: intensity_spec(ripple, pos),
            g: intensity_spec(ripple, pos),
            b: intensity_spec(ripple, pos),
        }),
{
    let i = intensity_spec(ripple, pos);
    crate::fixed::lemma_quot_range(ONE * i, i, i);
    let n = gradient_spec(ripple, pos);
    let l = pos.minus(light_spec());
    assert(0 <= ONE * ONE) by (nonlinear_arith);
    if n.norm2() > 0 {
        crate::math::lemma_unit_norm(n);
    }
    if l.norm2() > 0 {
        crate::math::lemma_unit_norm(l);
    }
    assert(origin().norm2() == 0) by (nonlinear_arith)
        requires
            origin().x == 0 && origin().y == 0 && origin().z == 0,
    ;
    assert(n.unit_or_zero().norm2() <= ONE * ONE);
    assert(l.unit_or_zero().norm2() <= ONE * ONE);
    lemma_dot_of_units(n.unit_or_zero(), l.unit_or_zero());
}

/// Whatever a ray finds is the sky or a colour whose channels all lie
/// between `AMBIENT` and one.
pub proof fn lemma_march_sky_or_lit(ripple: bool, pos: Vector, dir: Vector, budget: nat)
    ensures
        ({
            let c = march_spec(ripple, pos, dir, budget);
            c == sky_spec() || c.between(AMBIENT as int, ONE as int)
        }),
    decreases budget,
{
    lemma_shade_floor(ripple, pos);
    let d = field_spec(ripple, pos);
    if budget > 0 && MIN_DISTANCE <= d <= MAX_DISTANCE {
        lemma_march_sky_or_lit(ripple, pos.plus(dir.scaled(d)), dir, (budget - 1) as nat);
    }
}

/// A frame has four bytes to the pixel, and the fourth of each is opaque.
pub proof fn lemma_frame_layout(pose: Pose, ripple: bool, side: int, index: int)
    requires
        0 <= index < side * side,
    ensures
        frame_spec(pose, ripple, side).len() == 4 * (side * side),
        frame_spec(pose, ripple, side).subrange(4 * index, 4 * index + 4) == pixel_spec(
            pose,
            ripple,
            side,
            index,
        ).bytes(),
        frame_spec(pose, ripple, side)[4 * index + 3] == 255,
{
    let f = frame_spec(pose, ripple, side);
    let b = pixel_spec(pose, ripple, side, index).bytes();
    assert(f.subrange(4 * index, 4 * index + 4) =~= b);
}

/// A frame depends on the orbit angle, the side and the ripple alone: two
/// renderers of the same side and ripple setting draw the same bytes at the
/// same angle, whatever their cameras were before.
pub proof fn lemma_draw_deterministic(a: Marcher, b: Marcher, t: int)
    requires
        a.side() == b.side(),
        a.rippled() == b.rippled(),
    ensures
        a.drawn(t) == b.drawn(t),
{
}

/// The mean of four samples between zero and one lies between zero and one.
proof fn lemma_mean(sum: int)
    requires
        0 <= sum <= 4 * ONE,
    ensures
        0 <= quot(sum * ONE, 4 * ONE) <= ONE,
{
    let n = sum * 1_000_000;
    assert(sum * ONE == n && magnitude(n) == n && magnitude(4 * ONE) == 4_000_000);
    assert(0 <= n / 4_000_000 <= 1_000_000);
}

/// A side whose image buffer fits the machine is at most `2^32`.
pub proof fn lemma_side_bound(side: int)
    by (nonlinear_arith)
    requires
        0 <= side,
        4 * (side * side) <= usize::MAX,
    ensures
        side <= 0x1_0000_0000,
{
}

} // verus!
