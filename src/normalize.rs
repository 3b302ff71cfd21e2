//! Bounding boxes and the rescaling of a waypoint buffer into the canonical range.

use vstd::prelude::*;
use crate::arith::{div_toward_zero, max_int, min_int, trunc_div};
use crate::geom::Point;
use crate::{SynthError, CANONICAL_SPAN};

verus! {

/// The bounding box of a set of points, bounds included.
#[derive(Clone, Copy, Debug, PartialEq, Eq, Structural)]
pub struct Extent {
    pub min_x: i64,
    pub max_x: i64,
    pub min_y: i64,
    pub max_y: i64,
}

/// The smallest value of a non-empty sequence.
pub open spec fn seq_min(s: Seq<int>) -> int
    decreases s.len(),
{
    if s.len() <= 1 {
        s[0]
    } else {
        min_int(seq_min(s.drop_last()), s.last())
    }
}

/// The largest value of a non-empty sequence.
pub open spec fn seq_max(s: Seq<int>) -> int
    decreases s.len(),
{
    if s.len() <= 1 {
        s[0]
    } else {
        max_int(seq_max(s.drop_last()), s.last())
    }
}

pub open spec fn xs(s: Seq<Point>) -> Seq<int> {
    s.map_values(|p: Point| p.x as int)
}

pub open spec fn ys(s: Seq<Point>) -> Seq<int> {
    s.map_values(|p: Point| p.y as int)
}

/// The bounding box of a non-empty sequence of points.
pub open spec fn extent_of(s: Seq<Point>) -> Extent {
    Extent {
        min_x: seq_min(xs(s)) as i64,
        max_x: seq_max(xs(s)) as i64,
        min_y: seq_min(ys(s)) as i64,
        max_y: seq_max(ys(s)) as i64,
    }
}

impl Extent {
    pub open spec fn width(self) -> int {
        self.max_x - self.min_x
    }

    pub open spec fn height(self) -> int {
        self.max_y - self.min_y
    }

    /// The larger of the two dimensions.
    pub open spec fn span(self) -> int {
        max_int(self.width(), self.height())
    }
}

/// Where normalization sends the x coordinate `x` of a buffer with extent `e`:
/// `(x - min_x - width / 2) * CANONICAL_SPAN / span`, rounded toward zero.
pub open spec fn norm_x(e: Extent, x: int) -> int {
    trunc_div((2 * (x - e.min_x) - e.width()) * CANONICAL_SPAN, 2 * e.span())
}

/// Where normalization sends the y coordinate `y`: as for x, then negated.
pub open spec fn norm_y(e: Extent, y: int) -> int {
    -trunc_div((2 * (y - e.min_y) - e.height()) * CANONICAL_SPAN, 2 * e.span())
}

/// The buffer rescaled into the canonical range, centred on the origin.
pub open spec fn normalized(s: Seq<Point>) -> Seq<Point> {
    let e = extent_of(s);
    s.map_values(|p: Point| Point { x: norm_x(e, p.x as int) as i64, y: norm_y(e, p.y as int) as i64 })
}

/// What normalizing the buffer gives: an error for an empty buffer or one
/// whose points all coincide, else the rescaled buffer.
pub open spec fn normalize_result(s: Seq<Point>) -> Result<Seq<Point>, SynthError> {
    if s.len() == 0 {
        Err(SynthError::EmptyGeometryError)
    } else if extent_of(s).span() == 0 {
        Err(SynthError::DegenerateGeometryError)
    } else {
        Ok(normalized(s))
    }
}

/// The bound of a sequence lies below (above) each element and is one of them.
pub proof fn lemma_seq_bounds(s: Seq<int>)
    requires
        s.len() > 0,
    ensures
        forall|i: int| 0 <= i < s.len() ==> seq_min(s) <= s[i] && s[i] <= seq_max(s),
        exists|i: int| 0 <= i < s.len() && s[i] == seq_min(s),
        exists|i: int| 0 <= i < s.len() && s[i] == seq_max(s),
    decreases s.len(),
{
    if s.len() > 1 {
        let t = s.drop_last();
        lemma_seq_bounds(t);
        assert forall|i: int| 0 <= i < s.len() implies seq_min(s) <= s[i] && s[i] <= seq_max(s) by {
            if i < t.len() {
                assert(s[i] == t[i]);
            }
        }
        let j1 = choose|i: int| 0 <= i < t.len() && t[i] == seq_min(t);
        let j2 = choose|i: int| 0 <= i < t.len() && t[i] == seq_max(t);
        assert(s[j1] == t[j1]);
        assert(s[j2] == t[j2]);
        assert(s[s.len() - 1] == s.last());
    } else {
        assert(s[0] == seq_min(s));
    }
}

/// A value that bounds a sequence from below (above) and occurs in it is its minimum (maximum).
pub proof fn lemma_seq_bounds_unique(s: Seq<int>, lo: int, hi: int)
    requires
        s.len() > 0,
        forall|i: int| 0 <= i < s.len() ==> lo <= s[i] && s[i] <= hi,
        exists|i: int| 0 <= i < s.len() && s[i] == lo,
        exists|i: int| 0 <= i < s.len() && s[i] == hi,
    ensures
        seq_min(s) == lo,
        seq_max(s) == hi,
{
    lemma_seq_bounds(s);
    let a = choose|i: int| 0 <= i < s.len() && s[i] == lo;
    let b = choose|i: int| 0 <= i < s.len() && s[i] == hi;
    let c = choose|i: int| 0 <= i < s.len() && s[i] == seq_min(s);
    let d = choose|i: int| 0 <= i < s.len() && s[i] == seq_max(s);
    assert(seq_min(s) <= s[a]);
    assert(lo <= s[c]);
    assert(s[b] <= seq_max(s));
    assert(s[d] <= hi);
}

/// Division toward zero keeps the order of numerators.
pub proof fn lemma_trunc_div_monotone(a1: int, a2: int, b: int)
    requires
        a1 <= a2,
        b > 0,
    ensures
        trunc_div(a1, b) <= trunc_div(a2, b),
{
    if a1 >= 0 {
        assert(a1 / b <= a2 / b) by (nonlinear_arith)
            requires
                0 <= a1 <= a2,
                b > 0,
        ;
    } else if a2 >= 0 {
        assert(0 <= a2 / b) by (nonlinear_arith)
            requires
                0 <= a2,
                b > 0,
        ;
        assert(0 <= (-a1) / b) by (nonlinear_arith)
            requires
                0 <= -a1,
                b > 0,
        ;
    } else {
        assert((-a2) / b <= (-a1) / b) by (nonlinear_arith)
            requires
                0 <= -a2 <= -a1,
                b > 0,
        ;
    }
}

/// Division toward zero of a multiple gives the factor back.
proof fn lemma_trunc_div_multiple(k: int, m: int)
    requires
        m > 0,
    ensures
        trunc_div(k * m, m) == k,
{
    if k >= 0 {
        assert(k * m >= 0 && (k * m) / m == k) by (nonlinear_arith)
            requires
                k >= 0,
                m > 0,
        ;
    } else {
        assert(k * m < 0 && (-(k * m)) / m == -k) by (nonlinear_arith)
            requires
                k < 0,
                m > 0,
        ;
    }
}

/// Half the rescaled size of a dimension `d` of a buffer whose larger dimension is `span`.
pub open spec fn half_scaled(d: int, span: int) -> int {
    trunc_div(d * CANONICAL_SPAN, 2 * span)
}

proof fn lemma_half_scaled(d: int, span: int)
    requires
        0 <= d <= span,
        span > 0,
    ensures
        0 <= half_scaled(d, span) <= CANONICAL_SPAN / 2,
        d == span ==> half_scaled(d, span) == CANONICAL_SPAN / 2,
{
    let c = CANONICAL_SPAN as int;
    assert(0 <= d * c <= span * c) by (nonlinear_arith)
        requires
            0 <= d <= span,
            c > 0,
    ;
    assert(span * c == (c / 2) * (2 * span)) by (nonlinear_arith)
        requires
            c == CANONICAL_SPAN,
    ;
    lemma_trunc_div_multiple(c / 2, 2 * span);
    lemma_trunc_div_monotone(0, d * c, 2 * span);
    lemma_trunc_div_monotone(d * c, span * c, 2 * span);
}

/// The extent and span of a buffer are consistent with its points.
proof fn lemma_extent_facts(s: Seq<Point>)
    requires
        s.len() > 0,
    ensures
        forall|i: int|
            0 <= i < s.len() ==> extent_of(s).min_x <= #[trigger] s[i].x <= extent_of(s).max_x
                && extent_of(s).min_y <= s[i].y <= extent_of(s).max_y,
        exists|i: int| 0 <= i < s.len() && s[i].x == extent_of(s).min_x,
        exists|i: int| 0 <= i < s.len() && s[i].x == extent_of(s).max_x,
        exists|i: int| 0 <= i < s.len() && s[i].y == extent_of(s).min_y,
        exists|i: int| 0 <= i < s.len() && s[i].y == extent_of(s).max_y,
        0 <= extent_of(s).width() <= extent_of(s).span(),
        0 <= extent_of(s).height() <= extent_of(s).span(),
        extent_of(s).min_x == seq_min(xs(s)),
        extent_of(s).max_x == seq_max(xs(s)),
        extent_of(s).min_y == seq_min(ys(s)),
        extent_of(s).max_y == seq_max(ys(s)),
{
    lemma_seq_bounds(xs(s));
    lemma_seq_bounds(ys(s));
    let i1 = choose|i: int| 0 <= i < xs(s).len() && xs(s)[i] == seq_min(xs(s));
    let i2 = choose|i: int| 0 <= i < xs(s).len() && xs(s)[i] == seq_max(xs(s));
    let i3 = choose|i: int| 0 <= i < ys(s).len() && ys(s)[i] == seq_min(ys(s));
    let i4 = choose|i: int| 0 <= i < ys(s).len() && ys(s)[i] == seq_max(ys(s));
    assert(xs(s)[i1] == s[i1].x);
    assert(xs(s)[i2] == s[i2].x);
    assert(ys(s)[i3] == s[i3].y);
    assert(ys(s)[i4] == s[i4].y);
    assert(s[i1].x == extent_of(s).min_x);
    assert(s[i2].x == extent_of(s).max_x);
    assert(s[i3].y == extent_of(s).min_y);
    assert(s[i4].y == extent_of(s).max_y);
    assert forall|i: int| 0 <= i < s.len() implies extent_of(s).min_x <= #[trigger] s[i].x <= extent_of(s).max_x
        && extent_of(s).min_y <= s[i].y <= extent_of(s).max_y by {
        assert(xs(s)[i] == s[i].x && ys(s)[i] == s[i].y);
    }
}

/// The extent of a normalized buffer: `[-a, a] x [-b, b]`, where `a` and `b`
/// are half the rescaled width and height.
pub proof fn lemma_normalized_extent_exact(s: Seq<Point>)
    requires
        s.len() > 0,
        extent_of(s).span() > 0,
    ensures
        extent_of(normalized(s)).max_x == half_scaled(extent_of(s).width(), extent_of(s).span()),
        extent_of(normalized(s)).min_x == -half_scaled(extent_of(s).width(), extent_of(s).span()),
        extent_of(normalized(s)).max_y == half_scaled(extent_of(s).height(), extent_of(s).span()),
        extent_of(normalized(s)).min_y == -half_scaled(extent_of(s).height(), extent_of(s).span()),
        forall|i: int|
            0 <= i < s.len() ==> normalized(s)[i].x == norm_x(extent_of(s), s[i].x as int)
                && normalized(s)[i].y == norm_y(extent_of(s), s[i].y as int),
{
    let e = extent_of(s);
    let n = normalized(s);
    let c = CANONICAL_SPAN as int;
    let sp = e.span();
    let a = half_scaled(e.width(), sp);
    let b = half_scaled(e.height(), sp);
    lemma_extent_facts(s);
    lemma_half_scaled(e.width(), sp);
    lemma_half_scaled(e.height(), sp);
    assert(norm_x(e, e.min_x as int) == -a);
    assert(norm_x(e, e.max_x as int) == a);
    assert(norm_y(e, e.min_y as int) == b);
    assert(norm_y(e, e.max_y as int) == -b);
    assert forall|i: int| 0 <= i < s.len() implies -a <= norm_x(e, #[trigger] s[i].x as int) <= a && -b <= norm_y(
        e,
        s[i].y as int,
    ) <= b by {
        lemma_trunc_div_monotone(-e.width() * c, (2 * (s[i].x - e.min_x) - e.width()) * c, 2 * sp);
        lemma_trunc_div_monotone((2 * (s[i].x - e.min_x) - e.width()) * c, e.width() * c, 2 * sp);
        lemma_trunc_div_monotone(-e.height() * c, (2 * (s[i].y - e.min_y) - e.height()) * c, 2 * sp);
        lemma_trunc_div_monotone((2 * (s[i].y - e.min_y) - e.height()) * c, e.height() * c, 2 * sp);
    }
    assert forall|i: int| 0 <= i < s.len() implies xs(n)[i] == norm_x(e, s[i].x as int) && ys(n)[i]
        == norm_y(e, s[i].y as int) by {}
    let i1 = choose|i: int| 0 <= i < s.len() && s[i].x == e.min_x;
    let i2 = choose|i: int| 0 <= i < s.len() && s[i].x == e.max_x;
    let i3 = choose|i: int| 0 <= i < s.len() && s[i].y == e.min_y;
    let i4 = choose|i: int| 0 <= i < s.len() && s[i].y == e.max_y;
    assert(xs(n)[i1] == -a);
    assert(xs(n)[i2] == a);
    assert(ys(n)[i3] == b);
    assert(ys(n)[i4] == -b);
    lemma_seq_bounds_unique(xs(n), -a, a);
    lemma_seq_bounds_unique(ys(n), -b, b);
}

/// After normalization the bounding box of a buffer whose points do not all
/// coincide is centred on the origin, and its larger dimension is exactly
/// `CANONICAL_SPAN`.
pub proof fn lemma_normalized_extent(s: Seq<Point>)
    requires
        s.len() > 0,
        extent_of(s).span() > 0,
    ensures
        extent_of(normalized(s)).min_x + extent_of(normalized(s)).max_x == 0,
        extent_of(normalized(s)).min_y + extent_of(normalized(s)).max_y == 0,
        extent_of(normalized(s)).span() == CANONICAL_SPAN,
{
    let e = extent_of(s);
    lemma_extent_facts(s);
    lemma_normalized_extent_exact(s);
    lemma_half_scaled(e.width(), e.span());
    lemma_half_scaled(e.height(), e.span());
}

/// Normalizing a normalized buffer keeps every x coordinate and negates every y coordinate.
pub proof fn lemma_normalize_twice(s: Seq<Point>)
    requires
        s.len() > 0,
        extent_of(s).span() > 0,
    ensures
        normalized(s).len() == s.len(),
        extent_of(normalized(s)).span() > 0,
        forall|i: int|
            0 <= i < s.len() ==> normalized(normalized(s))[i] == (Point {
                x: normalized(s)[i].x,
                y: (-normalized(s)[i].y) as i64,
            }),
{
    let n = normalized(s);
    let e = extent_of(s);
    let e2 = extent_of(n);
    let c = CANONICAL_SPAN as int;
    lemma_normalized_extent(s);
    lemma_normalized_extent_exact(s);
    lemma_extent_facts(s);
    lemma_half_scaled(e.width(), e.span());
    lemma_half_scaled(e.height(), e.span());
    assert(e2.span() == c);
    assert forall|i: int| 0 <= i < s.len() implies normalized(n)[i] == (Point { x: n[i].x, y: (-n[i].y) as i64 }) by {
        assert((2 * (n[i].x - e2.min_x) - e2.width()) * c == (n[i].x as int) * (2 * c)) by (nonlinear_arith)
            requires
                e2.min_x == -e2.max_x,
        ;
        assert((2 * (n[i].y - e2.min_y) - e2.height()) * c == (n[i].y as int) * (2 * c)) by (nonlinear_arith)
            requires
                e2.min_y == -e2.max_y,
        ;
        lemma_trunc_div_multiple(n[i].x as int, 2 * c);
        lemma_trunc_div_multiple(n[i].y as int, 2 * c);
        lemma_extent_facts(n);
        assert(e2.min_y <= n[i].y <= e2.max_y);
    }
}

/// Normalizing an already-normalized buffer changes nothing, for a buffer whose
/// normalized points lie on the x axis (normalization negates y, so any other
/// normalized buffer comes back mirrored).
pub proof fn lemma_normalize_idempotent(s: Seq<Point>)
    requires
        s.len() > 0,
        extent_of(s).span() > 0,
        extent_of(normalized(s)).height() == 0,
    ensures
        normalized(normalized(s)) == normalized(s),
{
    let n = normalized(s);
    lemma_normalize_twice(s);
    lemma_normalized_extent(s);
    lemma_extent_facts(n);
    assert forall|i: int| 0 <= i < n.len() implies n[i].y == 0 by {
        assert(extent_of(n).min_x <= n[i].x);
    }
    assert(normalized(n) =~= n);
}

/// Computes the bounding box of the buffer; fails on an empty buffer.
pub fn compute_extent(pts: &Vec<Point>) -> (r: Result<Extent, SynthError>)
    ensures
        pts@.len() == 0 ==> r == Err::<Extent, SynthError>(SynthError::EmptyGeometryError),
        pts@.len() > 0 ==> r == Ok::<Extent, SynthError>(extent_of(pts@)),
{
    if pts.len() == 0 {
        return Err(SynthError::EmptyGeometryError);
    }
    let mut e = Extent { min_x: pts[0].x, max_x: pts[0].x, min_y: pts[0].y, max_y: pts[0].y };
    assert(xs(pts@.subrange(0, 1)) =~= seq![pts@[0].x as int]);
    assert(ys(pts@.subrange(0, 1)) =~= seq![pts@[0].y as int]);
    let mut i: usize = 1;
    while i < pts.len()
        invariant
            1 <= i <= pts@.len(),
            e == extent_of(pts@.subrange(0, i as int)),
        decreases pts@.len() - i,
    {
        let p = pts[i];
        let ghost prev = pts@.subrange(0, i as int);
        let ghost next = pts@.subrange(0, i + 1);
        assert(xs(next).drop_last() =~= xs(prev));
        assert(ys(next).drop_last() =~= ys(prev));
        assert(xs(next).last() == p.x);
        assert(ys(next).last() == p.y);
        proof {
            lemma_extent_facts(prev);
            lemma_extent_facts(next);
        }
        if p.x < e.min_x {
            e.min_x = p.x;
        }
        if p.x > e.max_x {
            e.max_x = p.x;
        }
        if p.y < e.min_y {
            e.min_y = p.y;
        }
        if p.y > e.max_y {
            e.max_y = p.y;
        }
        i = i + 1;
    }
    assert(pts@.subrange(0, pts@.len() as int) =~= pts@);
    Ok(e)
}

/// Rescales the buffer into the canonical range: its bounding box is centred
/// on the origin, its larger dimension becomes `CANONICAL_SPAN`, the aspect
/// ratio is kept and y is negated. Fails on an empty buffer, and on one whose
/// points all coincide.
pub fn normalize(pts: &Vec<Point>) -> (r: Result<Vec<Point>, SynthError>)
    ensures
        match r {
            Ok(v) => normalize_result(pts@) == Ok::<Seq<Point>, SynthError>(v@),
            Err(err) => normalize_result(pts@) == Err::<Seq<Point>, SynthError>(err),
        },
{
    let e = match compute_extent(pts) {
        Ok(e) => e,
        Err(err) => return Err(err),
    };
    let w: i128 = e.max_x as i128 - e.min_x as i128;
    let h: i128 = e.max_y as i128 - e.min_y as i128;
    let span: i128 = if w >= h { w } else { h };
    if span == 0 {
        return Err(SynthError::DegenerateGeometryError);
    }
    proof {
        lemma_extent_facts(pts@);
        lemma_normalized_extent_exact(pts@);
    }
    let ghost target = normalized(pts@);
    let mut out: Vec<Point> = Vec::new();
    let mut i: usize = 0;
    while i < pts.len()
        invariant
            pts@.len() > 0,
            e == extent_of(pts@),
            w == e.width(),
            h == e.height(),
            span == e.span(),
            span > 0,
            target == normalized(pts@),
            forall|j: int|
                0 <= j < pts@.len() ==> extent_of(pts@).min_x <= #[trigger] pts@[j].x <= extent_of(pts@).max_x
                    && extent_of(pts@).min_y <= pts@[j].y <= extent_of(pts@).max_y,
            forall|j: int|
                0 <= j < pts@.len() ==> target[j].x == norm_x(extent_of(pts@), pts@[j].x as int)
                    && target[j].y == norm_y(extent_of(pts@), pts@[j].y as int),
            i <= pts@.len(),
            out@.len() == i,
            forall|j: int| 0 <= j < i ==> out@[j] == target[j],
        decreases pts@.len() - i,
    {
        let p = pts[i];
        assert(target.len() == pts@.len());
        let c: i128 = CANONICAL_SPAN as i128;
        assert(c == 2097152);
        let nx: i128 = (2 * (p.x as i128 - e.min_x as i128) - w) * c;
        let ny: i128 = (2 * (p.y as i128 - e.min_y as i128) - h) * c;
        let qx = div_toward_zero(nx, 2 * span);
        let qy = div_toward_zero(ny, 2 * span);
        assert(target[i as int].x == qx);
        assert(target[i as int].y == -qy);
        out.push(Point { x: qx as i64, y: (-qy) as i64 });
        i = i + 1;
    }
    assert(out@ =~= target);
    Ok(out)
}

} // verus!
