use scopedraw::geom::Point;
use scopedraw::normalize::{compute_extent, normalize, Extent};
use scopedraw::stream::assemble;
use scopedraw::{SynthError, CANONICAL_SPAN, UNIT};

fn sample_buffer() -> Vec<Point> {
    vec![
        Point::new(3, 10),
        Point::new(-7, 4),
        Point::new(100, -20),
        Point::new(41, 33),
        Point::new(0, 0),
    ]
}

#[test]
fn extent_of_buffer() {
    let e = compute_extent(&sample_buffer()).unwrap();
    assert_eq!(e, Extent { min_x: -7, max_x: 100, min_y: -20, max_y: 33 });
}

#[test]
fn extent_of_empty_buffer_fails() {
    assert_eq!(compute_extent(&Vec::new()), Err(SynthError::EmptyGeometryError));
}

#[test]
fn normalized_extent_is_centred_with_canonical_span() {
    let n = normalize(&sample_buffer()).unwrap();
    let e = compute_extent(&n).unwrap();
    assert_eq!(e.min_x + e.max_x, 0);
    assert_eq!(e.min_y + e.max_y, 0);
    let w = e.max_x - e.min_x;
    let h = e.max_y - e.min_y;
    assert_eq!(w.max(h), CANONICAL_SPAN);
    assert_eq!(e.max_x, UNIT);
}

#[test]
fn normalize_exact_values() {
    let pts = vec![Point::new(0, 0), Point::new(4, 2)];
    let n = normalize(&pts).unwrap();
    // width 4 is the span; height 2 maps to half the canonical span; y is negated
    assert_eq!(n, vec![Point::new(-UNIT, UNIT / 2), Point::new(UNIT, -UNIT / 2)]);
}

#[test]
fn normalize_empty_fails() {
    assert_eq!(normalize(&Vec::new()), Err(SynthError::EmptyGeometryError));
}

#[test]
fn normalize_coincident_points_fails() {
    let pts = vec![Point::new(5, 5), Point::new(5, 5)];
    assert_eq!(normalize(&pts), Err(SynthError::DegenerateGeometryError));
}

#[test]
fn normalize_twice_on_flat_buffer_is_noop() {
    let pts = vec![Point::new(-3, 8), Point::new(9, 8), Point::new(1, 8)];
    let once = normalize(&pts).unwrap();
    let twice = normalize(&once).unwrap();
    assert_eq!(once, twice);
}

#[test]
fn normalize_twice_mirrors_y() {
    let once = normalize(&sample_buffer()).unwrap();
    let twice = normalize(&once).unwrap();
    for (a, b) in once.iter().zip(twice.iter()) {
        assert_eq!(a.x, b.x);
        assert_eq!(a.y, -b.y);
    }
}

#[test]
fn stream_length_and_layout() {
    let pts = vec![Point::new(1, 2), Point::new(3, 4), Point::new(5, 6)];
    let s = assemble(&pts, 4).unwrap();
    assert_eq!(s.len(), 2 * 4 * 3);
    assert_eq!(&s[0..6], &[1, 2, 3, 4, 5, 6]);
    assert_eq!(&s[18..24], &[1, 2, 3, 4, 5, 6]);
}

#[test]
fn stream_single_loop() {
    let pts = vec![Point::new(-1, 7)];
    assert_eq!(assemble(&pts, 1), Ok(vec![-1, 7]));
}

#[test]
fn stream_of_empty_buffer_fails() {
    assert_eq!(assemble(&Vec::new(), 3), Err(SynthError::EmptyGeometryError));
}

#[test]
fn stream_with_zero_loops_fails() {
    let pts = vec![Point::new(1, 2)];
    assert_eq!(assemble(&pts, 0), Err(SynthError::ConfigurationError));
}
