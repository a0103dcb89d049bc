use raymarch::color::Color;
use raymarch::fixed::ONE;
use raymarch::marcher::{Marcher, AMBIENT, ITERATIONS_LIMIT, MAX_DISTANCE, MIN_DISTANCE};
use raymarch::math::Vec3;
use raymarch::scene::sky_color;
use raymarch::utils::Ray;

fn plain() -> Marcher {
    let mut m = Marcher::from(4);
    m.set_ripple(false);
    m
}

#[test]
fn field_of_the_plain_sphere() {
    let m = plain();
    assert_eq!(m.dist(Vec3::new(3 * ONE, 0, 0)), 2 * ONE);
    assert_eq!(m.dist(Vec3::zero()), -ONE);
    assert_eq!(m.dist(Vec3::new(0, -ONE, 0)), 0);
}

#[test]
fn field_with_the_ripple() {
    let m = Marcher::from(4);
    assert_eq!(m.dist(Vec3::new(3 * ONE, 0, 0)), 1_923_458);
    assert_eq!(m.dist(Vec3::new(123_456, -2 * ONE, 700_000)), 1_278_074);
    assert_eq!(m.dist(Vec3::zero()), -ONE);
}

#[test]
fn field_of_the_sphere_matches_the_real_distance() {
    let m = plain();
    let points = [(1_234_567i64, -7_654_321i64, 2_000_001i64), (0, 0, 1), (-3_000_000, 2, 77), (500_000, 500_000, 500_000)];
    for (x, y, z) in points {
        let real = ((x * x + y * y + z * z) as f64).sqrt() - ONE as f64;
        let got = m.dist(Vec3::new(x, y, z)) as f64;
        assert!(got <= real && real < got + 1.0);
    }
}

#[test]
fn normal_on_the_axes_is_exact() {
    let m = plain();
    assert_eq!(m.normal(Vec3::new(ONE, 0, 0)), Vec3::new(ONE, 0, 0));
    assert_eq!(m.normal(Vec3::new(0, 0, -ONE)), Vec3::new(0, 0, -ONE));
    assert_eq!(m.normal(Vec3::new(2 * ONE, 0, 0)), Vec3::new(ONE, 0, 0));
}

#[test]
fn normal_on_the_sphere_is_close_to_the_radius() {
    let m = plain();
    assert_eq!(m.normal(Vec3::new(600_000, 800_000, 0)), Vec3::new(600_000, 800_000, 0));
    assert_eq!(m.normal(Vec3::new(577_350, 577_350, 577_350)), Vec3::new(577_211, 577_211, 577_211));
    let points = [(600_000i64, 800_000i64, 0i64), (577_350, 577_350, 577_350), (-272_166, -680_414, 680_414), (0, 707_107, -707_107)];
    for (x, y, z) in points {
        let n = m.normal(Vec3::new(x, y, z));
        let len = ((x * x + y * y + z * z) as f64).sqrt();
        let tolerance = 2.0 * 0.001;
        assert!((n.x as f64 / ONE as f64 - x as f64 / len).abs() <= tolerance);
        assert!((n.y as f64 / ONE as f64 - y as f64 / len).abs() <= tolerance);
        assert!((n.z as f64 / ONE as f64 - z as f64 / len).abs() <= tolerance);
    }
}

#[test]
fn normal_where_the_gradient_vanishes_is_zero() {
    let m = plain();
    assert_eq!(m.normal(Vec3::zero()), Vec3::zero());
    assert_eq!(m.shade(Vec3::zero()), Color::new(AMBIENT, AMBIENT, AMBIENT));
}

#[test]
fn normal_with_the_ripple() {
    let m = Marcher::from(4);
    assert_eq!(m.normal(Vec3::new(600_000, 800_000, 0)), Vec3::new(986_302, 164_778, 0));
    assert_eq!(m.normal(Vec3::new(0, 0, -ONE)), Vec3::new(981_190, 0, -192_919));
}

#[test]
fn shading_never_falls_below_the_ambient_floor() {
    let m = plain();
    let r = Marcher::from(4);
    let points = [
        (ONE, 0, 0),
        (0, ONE, 0),
        (0, 0, -ONE),
        (272_166, 680_414, -680_414),
        (-272_166, -680_414, 680_414),
        (600_000, 800_000, 0),
        (0, 0, 0),
        (5 * ONE, -3 * ONE, 2 * ONE),
    ];
    for (x, y, z) in points {
        for c in [m.shade(Vec3::new(x, y, z)), r.shade(Vec3::new(x, y, z))] {
            assert!(c.r >= AMBIENT && c.g >= AMBIENT && c.b >= AMBIENT);
            assert!(c.r <= ONE);
            assert!(c.r == c.g && c.g == c.b);
        }
    }
    assert_eq!(m.shade(Vec3::new(272_166, 680_414, -680_414)), Color::new(AMBIENT, AMBIENT, AMBIENT));
}

#[test]
fn shading_follows_the_angle_to_the_light() {
    let m = plain();
    assert_eq!(m.shade(Vec3::new(-272_166, -680_414, 680_414)), Color::new(999_705, 999_705, 999_705));
    assert_eq!(m.shade(Vec3::new(ONE, 0, 0)), Color::new(100_000, 100_000, 100_000));
}

#[test]
fn ray_far_from_the_surface_returns_the_background() {
    let m = plain();
    assert_eq!(m.cast_ray(Ray::from(Vec3::new(10 * ONE, 0, 0), Vec3::new(ONE, 0, 0))), sky_color());
    assert_eq!(m.cast_ray(Ray::from(Vec3::new(10 * ONE, 0, 0), Vec3::new(-ONE, 0, 0))), sky_color());
    assert_eq!(m.cast_ray(Ray::from(Vec3::new(0, -7 * ONE, 0), Vec3::new(0, -ONE, 0))), sky_color());
    let r = Marcher::from(4);
    assert_eq!(r.cast_ray(Ray::from(Vec3::new(10 * ONE, 0, 0), Vec3::new(ONE, 0, 0))), sky_color());
}

#[test]
fn ray_pointed_away_walks_off_and_returns_the_background() {
    let m = plain();
    assert_eq!(m.cast_ray(Ray::from(Vec3::new(3 * ONE, 0, 0), Vec3::new(ONE, 0, 0))), sky_color());
}

#[test]
fn ray_aimed_at_the_sphere_is_shaded() {
    let m = plain();
    let head_on = m.cast_ray(Ray::from(Vec3::new(3 * ONE, 0, 0), Vec3::new(-ONE, 0, 0)));
    assert_eq!(head_on, m.shade(Vec3::new(ONE, 0, 0)));
    assert_eq!(head_on, Color::new(100_000, 100_000, 100_000));
    let lit = m.cast_ray(Ray::from(Vec3::new(-816_498, -2_041_242, 2_041_242), Vec3::new(272_166, 680_414, -680_414)));
    assert_eq!(lit, Color::new(999_705, 999_705, 999_705));
}

#[test]
fn ray_that_spends_its_budget_is_shaded_where_it_stands() {
    let m = plain();
    let at = Vec3::new(2 * ONE, 0, 0);
    let d = m.dist(at);
    assert!(MIN_DISTANCE <= d && d <= MAX_DISTANCE);
    let stuck = m.cast_ray(Ray::from(at, Vec3::zero()));
    assert_eq!(stuck, m.shade(at));
    assert!(stuck != sky_color());
}

#[test]
fn stepping_by_the_distance_never_enters_the_sphere() {
    let m = plain();
    let dirs = [
        Vec3::new(-ONE, 340_000, 0).normalize(),
        Vec3::new(-ONE, 353_000, 0).normalize(),
        Vec3::new(-ONE, 353_550, 0).normalize(),
        Vec3::new(-ONE, 0, 0),
        Vec3::new(-600_000, 0, 800_000),
    ];
    for dir in dirs {
        let mut pos = Vec3::new(3 * ONE, 0, 0);
        for _ in 0..ITERATIONS_LIMIT {
            let d = m.dist(pos);
            assert!(d >= 0);
            if d > MAX_DISTANCE {
                break;
            }
            pos = pos + dir * d;
        }
        assert!(m.dist(pos) >= 0);
    }
}

#[test]
fn grazing_ray_converges_within_the_budget() {
    let m = plain();
    let dir = Vec3::new(-ONE, 340_000, 0).normalize();
    assert_eq!(dir, Vec3::new(-946_772, 321_902, 0));
    let mut pos = Vec3::new(3 * ONE, 0, 0);
    let mut steps = 0;
    let mut last = m.dist(pos);
    while last >= MIN_DISTANCE {
        pos = pos + dir * last;
        let next = m.dist(pos);
        assert!(next < last);
        last = next;
        steps += 1;
    }
    assert_eq!(steps, 15);
    assert_eq!(last, 899);
    assert_eq!(pos, Vec3::new(559_956, 829_608, 0));
    assert!(steps < ITERATIONS_LIMIT);
}

#[test]
fn colour_through_the_screen() {
    let mut m = Marcher::from(4);
    m.set_scene(0);
    assert_eq!(m.get_color(0, 0), Color::new(100_000, 100_000, 100_000));
    assert_eq!(m.get_color(250_000, -250_000), Color::new(100_000, 100_000, 100_000));
    m.set_ripple(false);
    assert_eq!(m.get_color(0, 0), Color::new(246_526, 246_526, 246_526));
    assert_eq!(m.get_color(250_000, -250_000), Color::new(245_528, 245_528, 245_528));
    assert_eq!(m.get_color(ONE, ONE), sky_color());
}

#[test]
fn ray_aimed_at_the_centre_hits_with_its_first_step() {
    let m = plain();
    let starts = [(3 * ONE, 0, 0), (-816_498, -2_041_242, 2_041_242), (1_234_567, -2_654_321, 2_000_001), (0, 1_001_000, 0), (3_400_000, 3_400_000, 3_400_000)];
    for (x, y, z) in starts {
        let pos = Vec3::new(x, y, z);
        let d = m.dist(pos);
        assert!(MIN_DISTANCE <= d && d <= MAX_DISTANCE);
        let dir = Vec3::zero() - pos.normalize();
        let next = pos + dir * d;
        let left = m.dist(next);
        assert!(0 <= left && left < 20);
        assert_eq!(m.cast_ray(Ray::from(pos, dir)), m.shade(next));
    }
}
