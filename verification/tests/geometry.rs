use asteroids::components::Vec2;
use asteroids::geometry::{
    clamp_speed, cosine_of, isqrt_ceil, normalize_angle, sine_of, step, within, wrap,
};

#[test]
fn sine_of_round_angles() {
    assert_eq!(sine_of(0), 0);
    assert_eq!(sine_of(30_000), 500_000);
    assert_eq!(sine_of(90_000), 1_000_000);
    assert_eq!(sine_of(150_000), 500_000);
    assert_eq!(sine_of(180_000), 0);
    assert_eq!(sine_of(210_000), -500_000);
    assert_eq!(sine_of(270_000), -1_000_000);
    assert_eq!(sine_of(330_000), -500_000);
}

#[test]
fn sine_of_an_odd_degree() {
    assert_eq!(sine_of(1_000), 17_452);
    assert_eq!(sine_of(45_000), 707_107);
    assert_eq!(sine_of(89_000), 999_848);
}

#[test]
fn sine_between_whole_degrees_lies_on_the_line_between_them() {
    // From 707107 at 45 degrees to 719340 at 46, half way.
    assert_eq!(sine_of(45_500), 713_223);
    assert_eq!(sine_of(30_250), 503_759);
    assert_eq!(sine_of(500), 8_726);
    assert_eq!(sine_of(200_750), -354_281);
    assert_eq!(sine_of(359_999), -18);
    assert!(sine_of(45_000) < sine_of(45_001));
    assert!(sine_of(45_999) <= sine_of(46_000));
}

#[test]
fn sine_and_cosine_are_close_to_the_true_ones() {
    for rot in 0..360_000i64 {
        let angle = (rot as f64 / 1000.0).to_radians();
        assert!((sine_of(rot) as f64 - angle.sin() * 1e6).abs() < 39.0);
        assert!((cosine_of(rot) as f64 - angle.cos() * 1e6).abs() < 39.0);
    }
}

#[test]
fn step_on_a_heading_between_whole_degrees() {
    assert_eq!(step(2500, 45_500), (1783, -1752));
    assert_eq!(step(5000, 30_500), (2537, -4307));
    assert_eq!(step(3000, 1_250), (65, -2999));
}

#[test]
fn cosine_of_round_angles() {
    assert_eq!(cosine_of(0), 1_000_000);
    assert_eq!(cosine_of(60_000), 500_000);
    assert_eq!(cosine_of(90_000), 0);
    assert_eq!(cosine_of(180_000), -1_000_000);
    assert_eq!(cosine_of(270_000), 0);
    assert_eq!(cosine_of(300_000), 500_000);
}

#[test]
fn wrap_brings_into_range() {
    assert_eq!(wrap(5, 800_000), 5);
    assert_eq!(wrap(0, 800_000), 0);
    assert_eq!(wrap(800_000, 800_000), 0);
    assert_eq!(wrap(800_001, 800_000), 1);
    assert_eq!(wrap(-1, 800_000), 799_999);
    assert_eq!(wrap(-800_000, 800_000), 0);
    assert_eq!(wrap(-1_600_001, 800_000), 799_999);
    assert_eq!(wrap(i64::MIN, 7), 6);
    assert_eq!(wrap(i64::MAX, 7), 0);
}

#[test]
fn wrap_round_trip() {
    let width = 800_000;
    let x = 123_456;
    let past = x + width;
    assert_eq!(wrap(past, width), past - width);
    let before = x - width;
    assert_eq!(wrap(before, width), before + width);
    assert_eq!(wrap(wrap(past, width) - width, width), x);
    assert_eq!(wrap(wrap(before, width) + width, width), x);
}

#[test]
fn angles_are_normalised() {
    assert_eq!(normalize_angle(0), 0);
    assert_eq!(normalize_angle(359_999), 359_999);
    assert_eq!(normalize_angle(360_000), 0);
    assert_eq!(normalize_angle(362_000), 2_000);
    assert_eq!(normalize_angle(-2_000), 358_000);
    assert_eq!(normalize_angle(-45_000), 315_000);
    assert_eq!(normalize_angle(-720_000), 0);
}

#[test]
fn step_along_the_axes() {
    assert_eq!(step(5000, 0), (0, -5000));
    assert_eq!(step(5000, 90_000), (5000, 0));
    assert_eq!(step(5000, 180_000), (0, 5000));
    assert_eq!(step(5000, 270_000), (-5000, 0));
}

#[test]
fn step_on_a_diagonal() {
    // 2500 * sin 45 = 1767.7, toward zero.
    assert_eq!(step(2500, 45_000), (1767, -1767));
    assert_eq!(step(2500, 225_000), (-1767, 1767));
    assert_eq!(step(3000, 30_000), (1500, -2598));
}

#[test]
fn square_roots_round_up() {
    assert_eq!(isqrt_ceil(0), 0);
    assert_eq!(isqrt_ceil(1), 1);
    assert_eq!(isqrt_ceil(2), 2);
    assert_eq!(isqrt_ceil(4), 2);
    assert_eq!(isqrt_ceil(5), 3);
    assert_eq!(isqrt_ceil(36_000_000), 6000);
    assert_eq!(isqrt_ceil(36_000_001), 6001);
    assert_eq!(isqrt_ceil(1_000_000_000_000_000_000), 1_000_000_000);
}

#[test]
fn clamp_leaves_a_slow_vector() {
    let v = Vec2 { x: 3000, y: -4000 };
    assert_eq!(clamp_speed(v, 6000), v);
    let edge = Vec2 { x: 6000, y: 0 };
    assert_eq!(clamp_speed(edge, 6000), edge);
}

#[test]
fn clamp_cuts_a_fast_vector() {
    // |(6000, 8000)| = 10000: each component times 6000 / 10000.
    assert_eq!(clamp_speed(Vec2 { x: 6000, y: 8000 }, 6000), Vec2 { x: 3600, y: 4800 });
    assert_eq!(clamp_speed(Vec2 { x: -6000, y: 8000 }, 6000), Vec2 { x: -3600, y: 4800 });
    // |(6001, 0)| = 6001: 6001 * 6000 / 6001.
    assert_eq!(clamp_speed(Vec2 { x: 6001, y: 0 }, 6000), Vec2 { x: 6000, y: 0 });
    let r = clamp_speed(Vec2 { x: 5000, y: 5000 }, 6000);
    // The length 7071.07 is taken as 7072: 5000 * 6000 / 7072 = 4242.08.
    assert_eq!(r, Vec2 { x: 4242, y: 4242 });
    assert!(r.x * r.x + r.y * r.y <= 6000 * 6000);
}

#[test]
fn within_is_strict() {
    assert!(within(0, 0, 3000, 4000, 5001));
    assert!(!within(0, 0, 3000, 4000, 5000));
    assert!(within(400_000, 235_000, 400_000, 235_000, 25_000));
    assert!(!within(7, 7, 7, 7, 0));
}
