use scopedraw::geom::{transform, Point, ShapeTransform, Transform};
use scopedraw::normalize::{compute_extent, normalize};
use scopedraw::path::{convert_path, PathEvent, PathSegment};
use scopedraw::synth::{synthesize, waypoints, Shape};
use scopedraw::waypoints::Accumulator;
use scopedraw::{SynthConfig, SynthError, UNIT};

fn unit_square() -> Vec<PathSegment> {
    vec![
        PathSegment::MoveTo { x: 0, y: 0 },
        PathSegment::LineTo { x: UNIT, y: 0 },
        PathSegment::LineTo { x: UNIT, y: UNIT },
        PathSegment::LineTo { x: 0, y: UNIT },
        PathSegment::ClosePath,
    ]
}

fn canonical_identity() -> Transform {
    Transform { a: 1, b: 0, c: 0, d: 1, e: 0, f: 0, den: 1 }
}

#[test]
fn square_path_events() {
    let events = convert_path(unit_square()).collect_events();
    assert_eq!(
        events,
        vec![
            PathEvent::Begin { at: Point::new(0, 0) },
            PathEvent::Line { from: Point::new(0, 0), to: Point::new(UNIT, 0) },
            PathEvent::Line { from: Point::new(UNIT, 0), to: Point::new(UNIT, UNIT) },
            PathEvent::Line { from: Point::new(UNIT, UNIT), to: Point::new(0, UNIT) },
            PathEvent::End { last: Point::new(0, UNIT), first: Point::new(0, 0), close: true },
        ]
    );
}

#[test]
fn open_subpaths_get_end_events() {
    let segs = vec![
        PathSegment::MoveTo { x: 1, y: 2 },
        PathSegment::LineTo { x: 3, y: 4 },
        PathSegment::MoveTo { x: 5, y: 6 },
        PathSegment::CurveTo { x1: 7, y1: 8, x2: 9, y2: 10, x: 11, y: 12 },
    ];
    let mut it = convert_path(segs);
    let events = it.collect_events();
    assert_eq!(
        events,
        vec![
            PathEvent::Begin { at: Point::new(1, 2) },
            PathEvent::Line { from: Point::new(1, 2), to: Point::new(3, 4) },
            PathEvent::End { last: Point::new(3, 4), first: Point::new(1, 2), close: false },
            PathEvent::Begin { at: Point::new(5, 6) },
            PathEvent::Cubic {
                from: Point::new(5, 6),
                ctrl1: Point::new(7, 8),
                ctrl2: Point::new(9, 10),
                to: Point::new(11, 12),
            },
            PathEvent::End { last: Point::new(11, 12), first: Point::new(5, 6), close: false },
        ]
    );
    assert_eq!(it.next(), None);
}

#[test]
fn composed_transform_maps_view_box_corners() {
    let t = transform(&ShapeTransform::identity(), UNIT, UNIT).unwrap();
    assert_eq!(t.apply(Point::new(0, 0)), Some(Point::new(-UNIT, UNIT)));
    assert_eq!(t.apply(Point::new(UNIT, UNIT)), Some(Point::new(UNIT, -UNIT)));
    assert_eq!(t.apply(Point::new(UNIT / 2, UNIT / 2)), Some(Point::new(0, 0)));
}

#[test]
fn composed_transform_applies_shape_transform_first() {
    // shape transform: scale by 2, then shift right by one unit; view box 4 x 2
    let base = ShapeTransform { a: 2 * UNIT, b: 0, c: 0, d: 2 * UNIT, e: UNIT, f: 0 };
    let t = transform(&base, 4 * UNIT, 2 * UNIT).unwrap();
    // (1, 1) -> (3, 2) -> shifted (1, 1) -> scaled by 2/4 with y negated
    assert_eq!(t.apply(Point::new(UNIT, UNIT)), Some(Point::new(UNIT / 2, -UNIT / 2)));
}

#[test]
fn degenerate_view_box_is_refused() {
    assert_eq!(transform(&ShapeTransform::identity(), 0, 0), Err(SynthError::ConfigurationError));
}

#[test]
fn scenario_closed_unit_square() {
    let cfg = SynthConfig::standard();
    let shapes = vec![Shape { transform: ShapeTransform::identity(), events: convert_path(unit_square()).collect_events() }];
    let w = waypoints(&shapes, UNIT, UNIT, &cfg).unwrap();
    // each edge is two canonical units long: 44100 * 2 * 0.01 = 882 samples
    assert_eq!(w[0], Point::new(-UNIT, UNIT));
    assert_eq!(w[1], Point::new(-UNIT, UNIT));
    assert_eq!(w[1 + 882], Point::new(UNIT, UNIT));
    assert_eq!(w[1 + 2 * 882], Point::new(UNIT, -UNIT));
    assert_eq!(w[1 + 3 * 882], Point::new(-UNIT, -UNIT));
    let last_edge_end = w[4 * 882];
    assert_eq!(last_edge_end.x, -UNIT);
    assert!(last_edge_end.y < UNIT && last_edge_end.y > UNIT - UNIT / 400);
    // then the jump home, which starts where the closing edge stopped
    assert_eq!(w[1 + 4 * 882], last_edge_end);
    let n = normalize(&w).unwrap();
    let e = compute_extent(&n).unwrap();
    assert_eq!((e.min_x, e.max_x, e.min_y, e.max_y), (-UNIT, UNIT, -UNIT, UNIT));
    let s = synthesize(&shapes, UNIT, UNIT, &cfg).unwrap();
    assert_eq!(s.len(), 2 * 10 * n.len());
}

#[test]
fn scenario_empty_document() {
    let cfg = SynthConfig::standard();
    assert_eq!(synthesize(&Vec::new(), UNIT, UNIT, &cfg), Err(SynthError::EmptyGeometryError));
}

#[test]
fn scenario_two_single_point_subpaths() {
    let cfg = SynthConfig::standard();
    let t = canonical_identity();
    let far = Point::new(10 * UNIT, 0);
    let mut acc = Accumulator::new(cfg);
    for ev in [
        PathEvent::Begin { at: Point::new(0, 0) },
        PathEvent::End { last: Point::new(0, 0), first: Point::new(0, 0), close: false },
        PathEvent::Begin { at: far },
        PathEvent::End { last: far, first: far, close: false },
    ] {
        acc.feed(ev, &t).unwrap();
    }
    let pts = acc.current();
    // (0, 0), then floor(44100 * 0.0005 * 10) = 220 eased points
    assert_eq!(pts.len(), 1 + 220);
    assert_eq!(pts[0], Point::new(0, 0));
    assert_eq!(pts[1], Point::new(0, 0));
    assert_eq!(pts[220], far);
    for w in pts.windows(2) {
        assert!(w[0].x <= w[1].x);
    }
    let mid = pts[1 + 110];
    assert_eq!(mid, Point::new(5 * UNIT, 0));
}

#[test]
fn home_jump_closes_the_buffer() {
    let cfg = SynthConfig::standard();
    let t = canonical_identity();
    let mut acc = Accumulator::new(cfg);
    acc.feed(PathEvent::Begin { at: Point::new(2 * UNIT, 0) }, &t).unwrap();
    let w = acc.finish();
    // 44100 * 0.0005 * 2 = 44.1
    assert_eq!(w.len(), 1 + 44);
    assert_eq!(w[1], Point::new(2 * UNIT, 0));
    assert!(w[44].x < UNIT / 1000);
}

#[test]
fn nothing_drawn_gives_empty_buffer() {
    let acc = Accumulator::new(SynthConfig::standard());
    assert!(acc.finish().is_empty());
}

#[test]
fn cubic_event_is_refused() {
    let mut acc = Accumulator::new(SynthConfig::standard());
    let p = Point::new(0, 0);
    let r = acc.feed(PathEvent::Cubic { from: p, ctrl1: p, ctrl2: p, to: p }, &canonical_identity());
    assert_eq!(r, Err(SynthError::UnsupportedGeometryError));
    assert!(acc.current().is_empty());
}

#[test]
fn curved_document_is_refused() {
    let cfg = SynthConfig::standard();
    let segs = vec![
        PathSegment::MoveTo { x: 0, y: 0 },
        PathSegment::CurveTo { x1: 1, y1: 1, x2: 2, y2: 2, x: 3, y: 0 },
    ];
    let shapes = vec![Shape { transform: ShapeTransform::identity(), events: convert_path(segs).collect_events() }];
    assert_eq!(synthesize(&shapes, UNIT, UNIT, &cfg), Err(SynthError::UnsupportedGeometryError));
}

#[test]
fn single_point_document_is_degenerate() {
    let cfg = SynthConfig::standard();
    let segs = vec![PathSegment::MoveTo { x: UNIT / 2, y: UNIT / 2 }];
    let shapes = vec![Shape { transform: ShapeTransform::identity(), events: convert_path(segs).collect_events() }];
    assert_eq!(synthesize(&shapes, UNIT, UNIT, &cfg), Err(SynthError::DegenerateGeometryError));
}

#[test]
fn bad_parameters_are_refused() {
    let mut cfg = SynthConfig::standard();
    cfg.easing_order = 1;
    assert_eq!(synthesize(&Vec::new(), UNIT, UNIT, &cfg), Err(SynthError::ConfigurationError));
    let cfg = SynthConfig::standard();
    assert_eq!(synthesize(&Vec::new(), 0, 0, &cfg), Err(SynthError::ConfigurationError));
}

#[test]
fn out_of_range_point_is_refused() {
    let mut acc = Accumulator::new(SynthConfig::standard());
    let r = acc.feed(PathEvent::Begin { at: Point::new(i64::MAX, 0) }, &canonical_identity());
    assert_eq!(r, Err(SynthError::ConfigurationError));
}
