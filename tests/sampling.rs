use scopedraw::geom::Point;
use scopedraw::sampler::{draw_line, jump, jump_easing};
use scopedraw::{SynthConfig, EASE_ONE, UNIT};

#[test]
fn zero_length_segment_emits_its_start_once() {
    let cfg = SynthConfig::standard();
    let a = Point::new(123, -456);
    let mut pts = vec![Point::new(7, 7)];
    draw_line(&mut pts, a, a, &cfg);
    assert_eq!(pts, vec![Point::new(7, 7), a]);
}

#[test]
fn unit_segment_gets_dwell_formula_count() {
    let cfg = SynthConfig::standard();
    let mut pts = Vec::new();
    draw_line(&mut pts, Point::new(0, 0), Point::new(UNIT, 0), &cfg);
    // 44100 samples/s * 1 unit * 0.01 s/unit
    assert_eq!(pts.len(), 441);
    assert_eq!(pts[0], Point::new(0, 0));
    assert_eq!(pts[1], Point::new(UNIT / 441, 0));
    assert_eq!(pts[440], Point::new(440 * UNIT / 441, 0));
}

#[test]
fn short_segment_still_gets_one_sample() {
    let cfg = SynthConfig::standard();
    let mut pts = Vec::new();
    draw_line(&mut pts, Point::new(5, 5), Point::new(6, 5), &cfg);
    assert_eq!(pts, vec![Point::new(5, 5)]);
}

#[test]
fn diagonal_segment_count_uses_euclidean_length() {
    let cfg = SynthConfig::standard();
    let mut pts = Vec::new();
    draw_line(&mut pts, Point::new(0, 0), Point::new(3 * UNIT, 4 * UNIT), &cfg);
    assert_eq!(pts.len(), 2205);
}

#[test]
fn jump_without_previous_point_emits_destination_only() {
    let cfg = SynthConfig::standard();
    let to = Point::new(UNIT, -UNIT);
    let mut pts = Vec::new();
    jump(&mut pts, None, to, &cfg);
    assert_eq!(pts, vec![to]);
}

#[test]
fn short_jump_degenerates_to_destination() {
    let cfg = SynthConfig::standard();
    let to = Point::new(UNIT / 100, 0);
    let mut pts = Vec::new();
    jump(&mut pts, Some(Point::new(0, 0)), to, &cfg);
    assert_eq!(pts, vec![to]);
}

#[test]
fn eased_jump_is_monotone_and_starts_at_origin() {
    let cfg = SynthConfig::standard();
    let mut pts = Vec::new();
    jump(&mut pts, Some(Point::new(0, 0)), Point::new(4 * UNIT, 0), &cfg);
    // 44100 * 0.0005 * 4 = 88.2
    assert_eq!(pts.len(), 88);
    assert_eq!(pts[0], Point::new(0, 0));
    assert_eq!(pts[44], Point::new(2 * UNIT, 0));
    for w in pts.windows(2) {
        assert!(w[0].x <= w[1].x);
        assert_eq!(w[1].y, 0);
    }
}

#[test]
fn easing_ends_and_midpoint() {
    for k in 2..12u32 {
        assert_eq!(jump_easing(k, 0), 0);
        assert_eq!(jump_easing(k, EASE_ONE), EASE_ONE);
        assert_eq!(jump_easing(k, EASE_ONE / 2), EASE_ONE / 2);
    }
}

#[test]
fn easing_is_non_decreasing() {
    for k in [2u32, 3, 10] {
        let mut prev = 0u64;
        for i in 0..=1000u64 {
            let e = jump_easing(k, i * EASE_ONE / 1000);
            assert!(e >= prev);
            assert!(e <= EASE_ONE);
            prev = e;
        }
    }
}

#[test]
fn easing_exact_values() {
    // order 2 at a quarter: (2 * 0.25)^2 / 2 = 0.125
    assert_eq!(jump_easing(2, EASE_ONE / 4), EASE_ONE / 8);
    // order 2 at three quarters: 1 - (2 - 1.5)^2 / 2 = 0.875
    assert_eq!(jump_easing(2, 3 * EASE_ONE / 4), 7 * EASE_ONE / 8);
    // order 3 at a quarter: 0.5^3 / 2 = 0.0625
    assert_eq!(jump_easing(3, EASE_ONE / 4), EASE_ONE / 16);
}
