//! The per-agent flocking rules: configuration validation, band
//! classification, and the speed clamp.

use boids::flock::{clamp_speed, classify, Band, Config};
use boids::geom::Vec2i;
use boids::num::isqrt;

fn base_config() -> Option<Config> {
    Config::new(10, 40, 600, 50, 50, 50, 5, 5, 26)
}

#[test]
fn test_config_accepts_typical_options() {
    let c = base_config().unwrap();
    assert_eq!(c.avoid_radius, 10);
    assert_eq!(c.align_radius, 40);
    assert_eq!(c.max_speed, 600);
    assert_eq!(c.min_speed, 50);
}

#[test]
fn test_config_rejects_inverted_radii() {
    assert!(Config::new(41, 40, 600, 50, 50, 50, 5, 5, 26).is_none());
}

#[test]
fn test_config_rejects_inverted_speeds() {
    assert!(Config::new(10, 40, 50, 600, 50, 50, 5, 5, 26).is_none());
}

#[test]
fn test_config_rejects_nonpositive_cell_size() {
    assert!(Config::new(10, 40, 600, 50, 50, 50, 5, 5, 0).is_none());
    assert!(Config::new(10, 40, 600, 50, 50, 50, 5, 5, -3).is_none());
}

#[test]
fn test_classify_bands() {
    // Avoid radius 10, align radius 40: squared thresholds 100 and 1600.
    assert_eq!(classify(0, 10, 40), Band::Avoid);
    assert_eq!(classify(99, 10, 40), Band::Avoid);
    assert_eq!(classify(100, 10, 40), Band::Align);
    assert_eq!(classify(1599, 10, 40), Band::Align);
    assert_eq!(classify(1600, 10, 40), Band::Ignore);
    assert_eq!(classify(1_000_000, 10, 40), Band::Ignore);
}

#[test]
fn test_classify_band_is_single() {
    // One squared distance never lands in two bands.
    for d2 in 0..2000i128 {
        let b = classify(d2, 10, 40);
        let in_avoid = d2 < 100;
        let in_align = (100..1600).contains(&d2);
        assert_eq!(b == Band::Avoid, in_avoid);
        assert_eq!(b == Band::Align, in_align && !in_avoid);
    }
}

#[test]
fn test_clamp_zero_velocity_takes_default_direction() {
    // The zero vector has no direction: policy substitutes +x at the floor.
    let r = clamp_speed(Vec2i::new(0, 0), 50, 600);
    assert_eq!(r, Vec2i::new(50, 0));
    assert_eq!(r.x * r.x + r.y * r.y, 2500);
}

#[test]
fn test_clamp_slow_velocity_rescales_to_floor() {
    // (3, 4) has length 5; rescaled to the floor 50 it becomes (30, 40),
    // of length exactly 50.
    let r = clamp_speed(Vec2i::new(3, 4), 50, 600);
    assert_eq!(r, Vec2i::new(30, 40));
}

#[test]
fn test_clamp_fast_velocity_rescales_to_ceiling() {
    let r = clamp_speed(Vec2i::new(800, 0), 50, 600);
    assert_eq!(r, Vec2i::new(600, 0));
    let r = clamp_speed(Vec2i::new(900, 1200), 50, 600);
    // Length 1500 rescaled to 600: the direction 3:4 is kept.
    assert_eq!(r, Vec2i::new(360, 480));
}

#[test]
fn test_clamp_in_band_velocity_is_kept() {
    let v = Vec2i::new(100, -200);
    assert_eq!(clamp_speed(v, 50, 600), v);
    let v = Vec2i::new(-50, 0);
    assert_eq!(clamp_speed(v, 50, 600), v);
}

#[test]
fn test_clamp_speed_stays_near_band() {
    // Speed-bound check across a sweep of velocities: after the clamp the
    // squared speed is inside the band, within rounding tolerance.
    let min: i64 = 50;
    let max: i64 = 600;
    for x in [-3000, -601, -50, -7, 0, 1, 13, 49, 333, 599, 601, 4000i64] {
        for y in [-2000, -100, -1, 0, 2, 50, 600, 5000i64] {
            let r = clamp_speed(Vec2i::new(x, y), min, max);
            let n2 = r.x * r.x + r.y * r.y;
            assert!(n2 <= max * max + 2 * max, "too fast: ({x},{y}) -> ({},{})", r.x, r.y);
            assert!(n2 >= min * min - 4 * min - 2, "too slow: ({x},{y}) -> ({},{})", r.x, r.y);
        }
    }
}

#[test]
fn test_isqrt_values() {
    assert_eq!(isqrt(0), 0);
    assert_eq!(isqrt(1), 1);
    assert_eq!(isqrt(99), 9);
    assert_eq!(isqrt(100), 10);
    assert_eq!(isqrt(2500), 50);
    assert_eq!(isqrt(u128::MAX), u64::MAX);
}
