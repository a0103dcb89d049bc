use raymarch::fixed::ONE;
use raymarch::math::Vec3;

#[test]
fn length_of_three_four_five_is_exact() {
    let v = Vec3::new(3 * ONE, 4 * ONE, 0);
    assert_eq!(v.length(), 5 * ONE);
}

#[test]
fn constructors_agree() {
    assert_eq!(Vec3::zero(), Vec3::new(0, 0, 0));
    assert_eq!(Vec3::default(), Vec3::zero());
    assert_eq!(Vec3::from(7), Vec3::new(7, 7, 7));
    let v = Vec3::new(1, -2, 3);
    assert_eq!((v.x, v.y, v.z), (1, -2, 3));
}

#[test]
fn abs_min_max_work_by_component() {
    let v = Vec3::new(-3, 0, 5);
    assert_eq!(v.abs(), Vec3::new(3, 0, 5));
    assert_eq!(v.min(1), Vec3::new(-3, 0, 1));
    assert_eq!(v.max(1), Vec3::new(1, 1, 5));
    assert_eq!(v.max(0), Vec3::new(0, 0, 5));
}

#[test]
fn sum_and_difference() {
    let a = Vec3::new(1, 2, 3);
    let b = Vec3::new(-4, 5, 6);
    assert_eq!(a + b, Vec3::new(-3, 7, 9));
    assert_eq!(a - b, Vec3::new(5, -3, -3));
    let mut c = a;
    c += b;
    assert_eq!(c, Vec3::new(-3, 7, 9));
    c -= b;
    assert_eq!(c, a);
}

#[test]
fn scaling_by_a_scalar() {
    let a = Vec3::new(ONE, 2 * ONE, 3 * ONE);
    assert_eq!(a * 2_500_000, Vec3::new(2_500_000, 5_000_000, 7_500_000));
    assert_eq!(2_500_000 * a, Vec3::new(2_500_000, 5_000_000, 7_500_000));
    assert_eq!(a / (4 * ONE), Vec3::new(250_000, 500_000, 750_000));
    let b = Vec3::new(-ONE, ONE, 7);
    assert_eq!(b / (3 * ONE), Vec3::new(-333_333, 333_333, 2));
    assert_eq!(b * 333_333, Vec3::new(-333_333, 333_333, 2));
    let mut c = a;
    c *= 2_500_000;
    assert_eq!(c, Vec3::new(2_500_000, 5_000_000, 7_500_000));
    c /= 2_500_000;
    assert_eq!(c, a);
}

#[test]
fn cross_and_dot_products() {
    let a = Vec3::new(ONE, 2 * ONE, 3 * ONE);
    let b = Vec3::new(-4 * ONE, 5 * ONE, 500_000);
    assert_eq!(a.cross(b), Vec3::new(-14_000_000, -12_500_000, 13_000_000));
    assert_eq!(a.dot(b), 7_500_000);
    let x = Vec3::new(ONE, 0, 0);
    let y = Vec3::new(0, ONE, 0);
    assert_eq!(x.cross(y), Vec3::new(0, 0, ONE));
    assert_eq!(y.cross(x), Vec3::new(0, 0, -ONE));
    assert_eq!(x.dot(y), 0);
}

#[test]
fn lengths_round_down() {
    let a = Vec3::new(ONE, 2 * ONE, 3 * ONE);
    assert_eq!(a.length(), 3_741_657);
    assert_eq!(a.squared_length(), 14 * ONE);
    assert_eq!(Vec3::new(999_999, 1, 1).length(), 999_999);
    assert_eq!(Vec3::new(-250_000, 250_000, 900_000).length(), 966_953);
    assert_eq!(Vec3::zero().length(), 0);
}

#[test]
fn length_matches_the_real_square_root() {
    let points = [(1_234_567i64, -7_654_321i64, 2_000_001i64), (3, 4, 0), (999_999, 1, 1), (-250_000, 250_000, 900_000)];
    for (x, y, z) in points {
        let real = ((x * x + y * y + z * z) as f64).sqrt();
        let got = Vec3::new(x, y, z).length() as f64;
        assert!(got <= real && real < got + 1.0);
    }
}

#[test]
fn normalize_never_exceeds_unit_length() {
    assert_eq!(Vec3::new(ONE, 2 * ONE, 3 * ONE).normalize(), Vec3::new(267_261, 534_522, 801_783));
    assert_eq!(Vec3::new(-4 * ONE, 5 * ONE, 500_000).normalize(), Vec3::new(-622_799, 778_498, 77_849));
    assert_eq!(Vec3::new(ONE, ONE, 0).normalize(), Vec3::new(707_106, 707_106, 0));
    assert_eq!(Vec3::new(3, 4, 0).normalize(), Vec3::new(600_000, 800_000, 0));
    assert_eq!(Vec3::new(1, 0, 0).normalize(), Vec3::new(ONE, 0, 0));
    assert_eq!(Vec3::new(5, 1, 0).normalize(), Vec3::new(833_333, 166_666, 0));
    for v in [Vec3::new(5, 1, 0), Vec3::new(-7, 3, 2), Vec3::new(123_456, -654_321, 1)] {
        let n = v.normalize();
        let squared = (n.x as i128).pow(2) + (n.y as i128).pow(2) + (n.z as i128).pow(2);
        assert!(squared <= (ONE as i128).pow(2));
    }
}

#[test]
fn normalize_or_zero_guards_the_zero_vector() {
    assert_eq!(Vec3::zero().normalize_or_zero(), Vec3::zero());
    assert_eq!(Vec3::new(0, 0, -9).normalize_or_zero(), Vec3::new(0, 0, -ONE));
    assert_eq!(Vec3::new(ONE, ONE, 0).normalize_or_zero(), Vec3::new(707_106, 707_106, 0));
}
