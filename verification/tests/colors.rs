use raymarch::color::Color;
use raymarch::fixed::ONE;

#[test]
fn named_colours() {
    assert_eq!(Color::black(), Color::new(0, 0, 0));
    assert_eq!(Color::white(), Color::new(ONE, ONE, ONE));
}

#[test]
fn bytes_clamp_and_round_down() {
    assert_eq!(Color::new(500_000, 1_200_000, -300_000).into_u8(), [127, 255, 0, 255]);
    assert_eq!(Color::new(999_999, 3_922, 3_921).into_u8(), [254, 1, 0, 255]);
    assert_eq!(Color::new(ONE, 0, 1).into_u8(), [255, 0, 0, 255]);
    assert_eq!(Color::black().into_u8(), [0, 0, 0, 255]);
    assert_eq!(Color::white().into_u8(), [255, 255, 255, 255]);
    assert_eq!(Color::new(i64::MAX, i64::MIN, 0).into_u8(), [255, 0, 0, 255]);
}

#[test]
fn colours_accumulate_and_average() {
    let mut sum = Color::black();
    sum += Color::new(100_000, 200_000, 300_000);
    sum += Color::new(ONE, 0, 1);
    assert_eq!(sum, Color::new(1_100_000, 200_000, 300_001));
    assert_eq!(sum + Color::new(1, 1, 1), Color::new(1_100_001, 200_001, 300_002));
    assert_eq!(sum / (4 * ONE), Color::new(275_000, 50_000, 75_000));
    assert_eq!(Color::white() * 250_000, Color::new(250_000, 250_000, 250_000));
    assert_eq!(Color::new(3, -3, ONE) * 500_000, Color::new(1, -1, 500_000));
}
