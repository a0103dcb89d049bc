use raymarch::fixed::ONE;
use raymarch::math::Vec3;
use raymarch::primitives::{Object3d, Rec, Sphere};
use raymarch::utils::{clamp, intersection, mix, smooth_intersection, smooth_substraction, smooth_union, substraction, union};

#[test]
fn sphere_distance_is_length_minus_radius() {
    let s = Sphere::from(Vec3::zero(), 2 * ONE);
    assert_eq!(s.get_dist(Vec3::new(3 * ONE, 4 * ONE, 0)), 3 * ONE);
    assert_eq!(s.get_dist(Vec3::zero()), -2 * ONE);
    assert_eq!(s.get_dist(Vec3::new(0, -2 * ONE, 0)), 0);
    let t = Sphere::from(Vec3::new(ONE, ONE, ONE), 500_000);
    assert_eq!(t.get_dist(Vec3::new(1_234_567, -7_654_321, 2_000_001)), 8_215_061);
}

#[test]
fn sphere_distance_matches_the_real_one() {
    let radius = 1_250_000i64;
    let s = Sphere::from(Vec3::zero(), radius);
    let points = [(1_234_567i64, -7_654_321i64, 2_000_001i64), (0, 0, 1), (-3_000_000, 2, 77), (500_000, 500_000, 500_000)];
    for (x, y, z) in points {
        let real = ((x * x + y * y + z * z) as f64).sqrt() - radius as f64;
        let got = s.get_dist(Vec3::new(x, y, z)) as f64;
        assert!(got <= real && real < got + 1.0);
    }
}

#[test]
fn box_distance_outside_inside_and_at_a_corner() {
    let b = Rec::from(Vec3::zero(), Vec3::new(2 * ONE, 2 * ONE, 2 * ONE));
    assert_eq!(b.get_dist(Vec3::new(2 * ONE, 0, 0)), ONE);
    assert_eq!(b.get_dist(Vec3::new(500_000, 0, 0)), -500_000);
    assert_eq!(b.get_dist(Vec3::new(2 * ONE, 2 * ONE, 2 * ONE)), 1_732_050);
    assert_eq!(b.get_dist(Vec3::new(-3 * ONE, 250_000, -1_500_000)), 2_061_552);
    assert_eq!(b.get_dist(Vec3::zero()), -ONE);
    let c = Rec::from(Vec3::new(ONE, ONE, ONE), Vec3::new(ONE, 4 * ONE, 3));
    assert_eq!(c.get_dist(Vec3::new(ONE, -2 * ONE, ONE)), ONE);
}

#[test]
fn sharp_operators() {
    assert_eq!(union(3, -4), -4);
    assert_eq!(union(-4, 3), -4);
    assert_eq!(intersection(3, -4), 3);
    assert_eq!(intersection(-4, 3), 3);
    assert_eq!(substraction(3, -4), 4);
    assert_eq!(substraction(3, 4), 3);
    assert_eq!(substraction(-5, 4), -4);
}

#[test]
fn clamp_and_mix() {
    assert_eq!(clamp(5, 0, 3), 3);
    assert_eq!(clamp(-5, 0, 3), 0);
    assert_eq!(clamp(2, 0, 3), 2);
    assert_eq!(mix(ONE, 3 * ONE, 250_000), 1_500_000);
    assert_eq!(mix(ONE, 3 * ONE, 0), ONE);
    assert_eq!(mix(ONE, 3 * ONE, ONE), 3 * ONE);
    assert_eq!(mix(5, -7, 333_333), 2);
}

#[test]
fn smooth_union_rounds_the_seam() {
    assert_eq!(smooth_union(ONE, ONE, 500_000), 875_000);
    assert_eq!(smooth_union(ONE, 1_200_000, 500_000), 955_000);
    assert_eq!(smooth_union(-700_000, -650_000, 300_000), -752_082);
}

#[test]
fn smooth_operators_are_sharp_away_from_the_seam() {
    assert_eq!(smooth_union(ONE, 3 * ONE, 500_000), union(ONE, 3 * ONE));
    assert_eq!(smooth_union(3 * ONE, ONE, 500_000), union(3 * ONE, ONE));
    assert_eq!(smooth_union(ONE, 1_500_000, 500_000), ONE);
    assert_eq!(smooth_substraction(ONE, 2 * ONE, 500_000), substraction(ONE, 2 * ONE));
    assert_eq!(smooth_substraction(ONE, -3 * ONE, 500_000), substraction(ONE, -3 * ONE));
    assert_eq!(smooth_intersection(ONE, 3 * ONE, 500_000), intersection(ONE, 3 * ONE));
    assert_eq!(smooth_intersection(3 * ONE, ONE, 500_000), intersection(3 * ONE, ONE));
    assert_eq!(smooth_union(ONE, 3 * ONE, 1), ONE);
    assert_eq!(smooth_intersection(ONE, 3 * ONE, 1), 3 * ONE);
    assert_eq!(smooth_substraction(ONE, 3 * ONE, 1), ONE);
}

#[test]
fn smooth_substraction_and_intersection_round_the_seam() {
    assert_eq!(smooth_substraction(ONE, -ONE, 500_000), 1_125_000);
    assert_eq!(smooth_substraction(ONE, -900_000, 500_000), 1_080_000);
    assert_eq!(smooth_intersection(ONE, ONE, 500_000), 1_125_000);
    assert_eq!(smooth_intersection(ONE, 1_200_000, 500_000), 1_245_000);
}
