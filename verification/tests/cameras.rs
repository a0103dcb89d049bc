use raymarch::fixed::ONE;
use raymarch::math::Vec3;
use raymarch::scene::{construct_camera, sky_color};
use raymarch::color::Color;
use raymarch::utils::{Camera, Ray};

#[test]
fn ray_keeps_what_it_is_given() {
    let r = Ray::from(Vec3::new(1, 2, 3), Vec3::new(0, ONE, 0));
    assert_eq!(r.pos, Vec3::new(1, 2, 3));
    assert_eq!(r.dir, Vec3::new(0, ONE, 0));
}

#[test]
fn sky_is_black() {
    assert_eq!(sky_color(), Color::black());
}

#[test]
fn default_camera_looks_along_the_first_axis() {
    let c = Camera::new();
    let r = c.get_ray(0, 0);
    assert_eq!(r.pos, Vec3::zero());
    assert_eq!(r.dir, Vec3::new(ONE, 0, 0));
    assert_eq!(c.get_ray(ONE, ONE).dir, Vec3::new(577_350, 577_350, 577_350));
    assert_eq!(c.get_ray(-ONE, 500_000).dir, Vec3::new(666_666, -666_666, 333_333));
}

#[test]
fn camera_from_parts_aims_through_the_image_plane() {
    let c = Camera::from(Vec3::new(3 * ONE, 0, 0), Vec3::new(-ONE, 0, 0), Vec3::new(0, ONE, 0), Vec3::new(0, 0, ONE));
    let r = c.get_ray(-166_666, -166_666);
    assert_eq!(r.pos, Vec3::new(3 * ONE, 0, 0));
    assert_eq!(r.dir, Vec3::new(-973_327, -162_220, -162_220));
    assert_eq!(c.get_ray(ONE, 0).dir, Vec3::new(-707_106, 707_106, 0));
}

#[test]
fn degenerate_camera_gives_a_ray_without_direction() {
    let c = Camera::from(Vec3::zero(), Vec3::zero(), Vec3::zero(), Vec3::zero());
    assert_eq!(c.get_ray(ONE, -ONE).dir, Vec3::zero());
    let d = Camera::from(Vec3::zero(), Vec3::new(ONE, 0, 0), Vec3::new(-ONE, 0, 0), Vec3::zero());
    assert_eq!(d.get_ray(ONE, 0).dir, Vec3::zero());
}

#[test]
fn orbit_camera_at_angle_zero() {
    let c = construct_camera(0);
    let r = c.get_ray(0, 0);
    assert_eq!(r.pos, Vec3::new(2 * ONE, 0, 1_200_000));
    assert_eq!(r.dir, Vec3::new(-857_492, 0, -514_495));
    assert_eq!(c.get_ray(ONE, 0).dir, Vec3::new(-606_338, 707_107, -363_803));
    assert_eq!(c.get_ray(0, ONE).dir, Vec3::new(-242_535, 0, -970_142));
}

#[test]
fn orbit_camera_at_other_angles() {
    let c = construct_camera(1_000_000);
    assert_eq!(c.get_ray(0, 0).pos, Vec3::new(1_080_002, 1_680_436, 1_200_000));
    assert_eq!(c.get_ray(0, 0).dir, Vec3::new(-463_461, -721_126, -514_956));
    assert_eq!(c.get_ray(ONE, 0).dir, Vec3::new(-922_563, -127_610, -364_129));
    assert_eq!(c.get_ray(0, ONE).dir, Vec3::new(-130_847, -203_593, -970_272));
    assert_eq!(c.get_ray(-500_000, 250_000).dir, Vec3::new(23_359, -770_881, -636_549));
    let d = construct_camera(-7_000_000);
    assert_eq!(d.get_ray(0, 0).pos, Vec3::new(1_505_148, -1_311_924, 1_200_000));
    assert_eq!(d.get_ray(0, 0).dir, Vec3::new(-646_122, 563_175, -515_129));
    assert_eq!(d.get_ray(ONE, 0).dir, Vec3::new(7_735, 931_268, -364_251));
    assert_eq!(d.get_ray(0, ONE).dir, Vec3::new(-182_292, 158_889, -970_321));
}

#[test]
fn orbit_camera_looks_at_the_origin_with_a_right_handed_frame() {
    let mut t: i64 = -10_000_000;
    while t < 10_000_000 {
        let c = construct_camera(t);
        let r = c.get_ray(0, 0);
        let len = ((r.pos.x as f64).powi(2) + (r.pos.y as f64).powi(2) + (r.pos.z as f64).powi(2)).sqrt();
        assert!((r.dir.x as f64 + r.pos.x as f64 / len * ONE as f64).abs() < 2.0);
        assert!((r.dir.z as f64 + r.pos.z as f64 / len * ONE as f64).abs() < 2.0);
        let right = c.get_ray(ONE, 0).dir;
        let up = c.get_ray(0, ONE).dir;
        assert!(right != r.dir && up != r.dir);
        assert!(up.z < r.dir.z);
        t += 333_331;
    }
}

#[test]
fn orbit_camera_is_square_and_has_a_ray_through_every_point() {
    let dot = |a: Vec3, b: Vec3| a.dot(b);
    let mut t: i64 = -7_000_000;
    while t < 7_000_000 {
        let c = construct_camera(t);
        let dir = c.get_ray(0, 0).dir;
        let ahead = (dir.x as i128).pow(2) + (dir.y as i128).pow(2) + (dir.z as i128).pow(2);
        assert!(ahead > 999_990_000_000 && ahead <= 1_000_000_000_000);
        for u in [-ONE, -500_000, -1, 0, 1, 250_000, ONE] {
            for v in [-ONE, -600_000, 0, 1, 750_000, ONE] {
                let ray = c.get_ray(u, v).dir;
                assert!(ray != Vec3::zero());
                assert!(dot(ray, dir) > 0);
            }
        }
        t += 437_771;
    }
}
