use raymarch::fixed::{cos, product, quotient, reduce, root, root_up, sin, wide_product, wide_quot, HALF_PI, ONE, PI, TAU};

#[test]
fn product_rounds_toward_zero() {
    assert_eq!(product(1_500_000, 1_500_000), 2_250_000);
    assert_eq!(product(-1, 500_000), 0);
    assert_eq!(product(-3, 500_000), -1);
    assert_eq!(product(7, -500_000), -3);
    assert_eq!(product(123_456, ONE), 123_456);
    assert_eq!(product(123_456, 0), 0);
}

#[test]
fn quotient_rounds_toward_zero() {
    assert_eq!(quotient(ONE, 3 * ONE), 333_333);
    assert_eq!(quotient(-ONE, 3 * ONE), -333_333);
    assert_eq!(quotient(ONE, -3 * ONE), -333_333);
    assert_eq!(quotient(5, 2 * ONE), 2);
    assert_eq!(quotient(-7 * ONE, ONE), -7 * ONE);
}

#[test]
fn wide_operations_are_exact() {
    assert_eq!(wide_product(i64::MAX, i64::MIN), (i64::MAX as i128) * (i64::MIN as i128));
    assert_eq!(wide_quot(-7, 2), -3);
    assert_eq!(wide_quot(7, -2), -3);
    assert_eq!(wide_quot(-7, -2), 3);
    assert_eq!(wide_quot(0, -5), 0);
}

#[test]
fn root_brackets_its_argument() {
    assert_eq!(root(0), 0);
    assert_eq!(root(1), 1);
    assert_eq!(root(24), 4);
    assert_eq!(root(25), 5);
    assert_eq!(root(2_000_000_000_000), 1_414_213);
    assert_eq!(root(3_000_000_000_000), 1_732_050);
    assert_eq!(root(u128::MAX), u64::MAX);
    for n in 0u128..2000 {
        let r = root(n) as u128;
        assert!(r * r <= n && n < (r + 1) * (r + 1));
    }
}

#[test]
fn root_up_is_the_ceiling() {
    assert_eq!(root_up(0), 0);
    assert_eq!(root_up(24), 5);
    assert_eq!(root_up(25), 5);
    assert_eq!(root_up(26), 6);
    assert_eq!(root_up(2_000_000_000_000), 1_414_214);
}

#[test]
fn reduce_lands_in_the_first_turn() {
    assert_eq!(reduce(0), 0);
    assert_eq!(reduce(-1), 6_283_183);
    assert_eq!(reduce(7_000_000), 716_816);
    assert_eq!(reduce(TAU), 0);
    assert_eq!(reduce(i64::MIN), (i64::MIN as i128).rem_euclid(TAU as i128) as i64);
}

#[test]
fn sine_at_known_angles() {
    assert_eq!(sin(0), 0);
    assert_eq!(sin(HALF_PI), ONE);
    assert_eq!(sin(PI), 0);
    assert_eq!(sin(3 * HALF_PI), -ONE);
    assert_eq!(sin(1_000_000), 840_218);
    assert_eq!(sin(-1_000_000), -840_218);
    assert_eq!(sin(10_000_000), -543_695);
    assert_eq!(sin(60 * ONE), -306_171);
}

#[test]
fn cosine_at_known_angles() {
    assert_eq!(cos(0), ONE);
    assert_eq!(cos(HALF_PI), 0);
    assert_eq!(cos(PI), -ONE);
    assert_eq!(cos(1_000_000), 540_001);
    assert_eq!(cos(-1_000_000), 540_001);
}

#[test]
fn sine_and_cosine_stay_close_to_the_real_ones() {
    let mut t: i64 = -2 * TAU;
    while t < 2 * TAU {
        let x = t as f64 / ONE as f64;
        assert!((sin(t) as f64 / ONE as f64 - x.sin()).abs() < 0.002);
        assert!((cos(t) as f64 / ONE as f64 - x.cos()).abs() < 0.002);
        assert!(sin(t).abs() <= ONE && cos(t).abs() <= ONE);
        t += 9_973;
    }
}
