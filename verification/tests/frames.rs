use raymarch::color::Color;
use raymarch::fixed::ONE;
use raymarch::marcher::{Marcher, AMBIENT};
use raymarch::math::Vec3;
use raymarch::scene::sky_color;
use raymarch::utils::Camera;

fn facing_camera() -> Camera {
    Camera::from(Vec3::new(3 * ONE, 0, 0), Vec3::new(-ONE, 0, 0), Vec3::new(0, ONE, 0), Vec3::new(0, 0, ONE))
}

#[test]
fn pixels_are_the_mean_of_their_samples() {
    let mut m = Marcher::from(4);
    m.set_scene(0);
    assert_eq!(m.pixel(5), Color::new(332_837, 332_837, 332_837));
    assert_eq!(m.pixel(6), Color::new(243_959, 243_959, 243_959));
    assert_eq!(m.pixel(9), Color::new(298_539, 298_539, 298_539));
    assert_eq!(m.pixel(10), Color::new(100_000, 100_000, 100_000));
    assert_eq!(m.pixel(0), Color::black());
    m.set_ripple(false);
    assert_eq!(m.pixel(5), Color::new(713_975, 713_975, 713_975));
    assert_eq!(m.pixel(9), Color::new(219_095, 219_095, 219_095));
}

#[test]
fn pixel_samples_sit_on_a_grid_inside_the_pixel() {
    let mut m = Marcher::from(4);
    m.set_ripple(false);
    m.set_camera(facing_camera());
    let coords = [-833_333i64, -666_666, -333_333, -166_666, 166_666, 333_333, 666_666, 833_333];
    for index in 0..16usize {
        let (row, col) = (index / 4, index % 4);
        let mut sum = Color::black();
        for i in 0..2 {
            for j in 0..2 {
                sum += m.get_color(coords[2 * col + i], coords[2 * row + j]);
            }
        }
        assert_eq!(m.pixel(index), sum / (4 * ONE));
    }
}

#[test]
fn frame_at_angle_zero() {
    let mut m = Marcher::from(4);
    let mut screen = vec![7u8; 64];
    m.draw(0, &mut screen);
    let expected: Vec<u8> = vec![
        0, 0, 0, 255, 0, 0, 0, 255, 0, 0, 0, 255, 0, 0, 0, 255, 0, 0, 0, 255, 84, 84, 84, 255, 62, 62, 62, 255, 0, 0, 0,
        255, 0, 0, 0, 255, 76, 76, 76, 255, 25, 25, 25, 255, 0, 0, 0, 255, 0, 0, 0, 255, 0, 0, 0, 255, 0, 0, 0, 255, 0,
        0, 0, 255,
    ];
    assert_eq!(screen, expected);
    m.set_ripple(false);
    m.draw(0, &mut screen);
    let plain: Vec<u8> = vec![
        0, 0, 0, 255, 0, 0, 0, 255, 0, 0, 0, 255, 0, 0, 0, 255, 0, 0, 0, 255, 182, 182, 182, 255, 62, 62, 62, 255, 0, 0,
        0, 255, 0, 0, 0, 255, 55, 55, 55, 255, 25, 25, 25, 255, 0, 0, 0, 255, 0, 0, 0, 255, 0, 0, 0, 255, 0, 0, 0, 255,
        0, 0, 0, 255,
    ];
    assert_eq!(screen, plain);
}

#[test]
fn frames_of_other_sizes_and_angles() {
    let mut m = Marcher::from(3);
    let mut screen = vec![0u8; 36];
    m.draw(2_500_000, &mut screen);
    let expected: Vec<u8> = vec![
        0, 0, 0, 255, 6, 6, 6, 255, 0, 0, 0, 255, 6, 6, 6, 255, 54, 54, 54, 255, 28, 28, 28, 255, 0, 0, 0, 255, 0, 0, 0,
        255, 0, 0, 0, 255,
    ];
    assert_eq!(screen, expected);
    let mut small = Marcher::from(2);
    let mut four = vec![0u8; 16];
    small.draw(0, &mut four);
    assert_eq!(four, vec![6, 6, 6, 255, 6, 6, 6, 255, 26, 26, 26, 255, 6, 6, 6, 255]);
    small.set_ripple(false);
    small.draw(0, &mut four);
    assert_eq!(four, vec![59, 59, 59, 255, 13, 13, 13, 255, 10, 10, 10, 255, 6, 6, 6, 255]);
    let mut one = Marcher::from(1);
    let mut single = vec![0u8; 4];
    one.draw(0, &mut single);
    assert_eq!(single, one.pixel(0).into_u8().to_vec());
}

#[test]
fn frame_holds_every_pixel_in_row_order() {
    let mut m = Marcher::from(5);
    let mut screen = vec![0u8; 100];
    m.draw(1_000_000, &mut screen);
    for index in 0..25usize {
        assert_eq!(&screen[4 * index..4 * index + 4], &m.pixel(index).into_u8()[..]);
        assert_eq!(screen[4 * index + 3], 255);
    }
    let lit = (0..25usize).filter(|index| screen[4 * index] != 0).count();
    assert!(lit >= 4 && lit < 25);
}

#[test]
fn same_angle_gives_the_same_bytes() {
    let mut a = Marcher::from(4);
    let mut first = vec![0u8; 64];
    let mut second = vec![255u8; 64];
    a.draw(1_000_000, &mut first);
    a.draw(4_000_000, &mut second);
    assert!(first != second);
    a.draw(1_000_000, &mut second);
    assert_eq!(first, second);
    let mut b = Marcher::from(4);
    b.set_camera(facing_camera());
    let mut third = vec![1u8; 64];
    b.draw(1_000_000, &mut third);
    assert_eq!(first, third);
    let expected: Vec<u8> = vec![
        0, 0, 0, 255, 0, 0, 0, 255, 0, 0, 0, 255, 0, 0, 0, 255, 0, 0, 0, 255, 42, 42, 42, 255, 87, 87, 87, 255, 0, 0, 0,
        255, 0, 0, 0, 255, 25, 25, 25, 255, 25, 25, 25, 255, 0, 0, 0, 255, 0, 0, 0, 255, 0, 0, 0, 255, 0, 0, 0, 255, 0,
        0, 0, 255,
    ];
    assert_eq!(first, expected);
}

#[test]
fn unit_sphere_seen_from_three_units_away() {
    let mut m = Marcher::from(4);
    m.set_ripple(false);
    m.set_camera(facing_camera());
    let mut screen = vec![0u8; 64];
    m.render(&mut screen);
    let sky = sky_color().into_u8();
    for corner in [0usize, 3, 12, 15] {
        assert_eq!(m.pixel(corner), sky_color());
        assert_eq!(&screen[4 * corner..4 * corner + 4], &sky[..]);
    }
    for (center, u, v) in [(5usize, -166_666i64, -166_666i64), (6, 166_666, -166_666), (9, -166_666, 166_666), (10, 166_666, 166_666)] {
        assert!(m.pixel(center) != sky_color());
        assert!(&screen[4 * center..4 * center + 4] != &sky[..]);
        let hit = m.get_color(u, v);
        assert!(hit != sky_color());
        assert!(hit.r >= AMBIENT && hit.g >= AMBIENT && hit.b >= AMBIENT);
    }
    assert_eq!(m.get_color(0, 0), Color::new(100_000, 100_000, 100_000));
    assert_eq!(m.get_color(-833_333, -833_333), sky_color());
    let expected: Vec<u8> = vec![
        0, 0, 0, 255, 0, 0, 0, 255, 0, 0, 0, 255, 0, 0, 0, 255, 0, 0, 0, 255, 6, 6, 6, 255, 6, 6, 6, 255, 0, 0, 0, 255,
        0, 0, 0, 255, 23, 23, 23, 255, 6, 6, 6, 255, 0, 0, 0, 255, 0, 0, 0, 255, 0, 0, 0, 255, 0, 0, 0, 255, 0, 0, 0,
        255,
    ];
    assert_eq!(screen, expected);
}
