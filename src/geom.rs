//! Points and segment lengths in fixed-point ticks.

use vstd::prelude::*;
use crate::arith::{div_toward_zero, isqrt, trunc_div};
use crate::{SynthError, COORD_LIMIT, UNIT};

verus! {

/// A point; each coordinate is in ticks.
#[derive(Clone, Copy, Debug, PartialEq, Eq, Structural)]
pub struct Point {
    pub x: i64,
    pub y: i64,
}

impl Point {
    /// Both coordinates lie within [`COORD_LIMIT`] of the origin.
    pub open spec fn wf(self) -> bool {
        -COORD_LIMIT <= self.x <= COORD_LIMIT && -COORD_LIMIT <= self.y <= COORD_LIMIT
    }

    pub fn new(x: i64, y: i64) -> (r: Point)
        ensures
            r.x == x,
            r.y == y,
    {
        Point { x, y }
    }
}

/// Squared Euclidean distance between two points.
pub open spec fn dist_sq(a: Point, b: Point) -> int {
    (b.x - a.x) * (b.x - a.x) + (b.y - a.y) * (b.y - a.y)
}

/// `r` is the floor of the square root of `n`.
pub open spec fn is_floor_sqrt(r: int, n: int) -> bool {
    0 <= r && r * r <= n && n < (r + 1) * (r + 1)
}

/// Length of a segment in ticks, rounded down.
pub open spec fn seg_length(a: Point, b: Point) -> int {
    choose|r: int| is_floor_sqrt(r, dist_sq(a, b))
}

/// The floor of a square root is unique.
pub proof fn lemma_floor_sqrt_unique(r1: int, r2: int, n: int)
    requires
        is_floor_sqrt(r1, n),
        is_floor_sqrt(r2, n),
    ensures
        r1 == r2,
{
    if r1 < r2 {
        assert((r1 + 1) * (r1 + 1) <= r2 * r2) by (nonlinear_arith)
            requires
                0 <= r1 + 1 <= r2,
        ;
    } else if r2 < r1 {
        assert((r2 + 1) * (r2 + 1) <= r1 * r1) by (nonlinear_arith)
            requires
                0 <= r2 + 1 <= r1,
        ;
    }
}

/// Length of the segment from `a` to `b`, in ticks, rounded down.
pub fn length(a: Point, b: Point) -> (r: u64)
    requires
        a.wf(),
        b.wf(),
    ensures
        r == seg_length(a, b),
        r < 4398046511104,
{
    let dx: i128 = b.x as i128 - a.x as i128;
    let dy: i128 = b.y as i128 - a.y as i128;
    assert(0 <= dx * dx <= 4835703278458516698824704) by (nonlinear_arith)
        requires
            -2199023255552 <= dx <= 2199023255552,
    ;
    assert(0 <= dy * dy <= 4835703278458516698824704) by (nonlinear_arith)
        requires
            -2199023255552 <= dy <= 2199023255552,
    ;
    let d2: u128 = (dx * dx) as u128 + (dy * dy) as u128;
    let r = isqrt(d2);
    proof {
        let n = dist_sq(a, b);
        assert(d2 == n);
        assert(is_floor_sqrt(r as int, n));
        lemma_floor_sqrt_unique(r as int, seg_length(a, b), n);
        if r >= 4398046511104 {
            assert((r as int) * (r as int) >= 4398046511104 * 4398046511104) by (nonlinear_arith)
                requires
                    r >= 4398046511104,
            ;
        }
    }
    r
}

/// The affine transform that a document declares for a shape. The linear
/// part is fixed point, with `UNIT` standing for one; the translation is in
/// ticks. It sends `(x, y)` to `((a x + c y) / UNIT + e, (b x + d y) / UNIT + f)`.
#[derive(Clone, Copy, Debug, PartialEq, Eq, Structural)]
pub struct ShapeTransform {
    pub a: i64,
    pub b: i64,
    pub c: i64,
    pub d: i64,
    pub e: i64,
    pub f: i64,
}

impl ShapeTransform {
    /// The transform that leaves every point where it is.
    pub fn identity() -> (r: ShapeTransform)
        ensures
            r == (ShapeTransform { a: UNIT, b: 0, c: 0, d: UNIT, e: 0, f: 0 }),
    {
        ShapeTransform { a: UNIT, b: 0, c: 0, d: UNIT, e: 0, f: 0 }
    }
}

/// `UNIT` times the x coordinate that the shape transform gives to `(x, y)`.
pub open spec fn shape_x(s: ShapeTransform, x: int, y: int) -> int {
    s.a * x + s.c * y + s.e * UNIT
}

/// `UNIT` times the y coordinate that the shape transform gives to `(x, y)`.
pub open spec fn shape_y(s: ShapeTransform, x: int, y: int) -> int {
    s.b * x + s.d * y + s.f * UNIT
}

/// An affine map into canonical space with a common denominator: it sends
/// `(x, y)` to `((a x + c y + e) / den, (b x + d y + f) / den)`, each
/// quotient rounded toward zero.
#[derive(Clone, Copy, Debug, PartialEq, Eq, Structural)]
pub struct Transform {
    pub a: i128,
    pub b: i128,
    pub c: i128,
    pub d: i128,
    pub e: i128,
    pub f: i128,
    pub den: i128,
}

/// Bound on the linear coefficients of a [`Transform`].
pub const LINEAR_LIMIT: i128 = 18446744073709551616;

/// Bound on the translation of a [`Transform`].
pub const SHIFT_LIMIT: i128 = 77371252455336267181195264;

impl Transform {
    /// The coefficients are within the bounds that keep its application free of overflow.
    pub open spec fn wf(self) -> bool {
        &&& -LINEAR_LIMIT <= self.a <= LINEAR_LIMIT
        &&& -LINEAR_LIMIT <= self.b <= LINEAR_LIMIT
        &&& -LINEAR_LIMIT <= self.c <= LINEAR_LIMIT
        &&& -LINEAR_LIMIT <= self.d <= LINEAR_LIMIT
        &&& -SHIFT_LIMIT <= self.e <= SHIFT_LIMIT
        &&& -SHIFT_LIMIT <= self.f <= SHIFT_LIMIT
        &&& 0 < self.den <= i64::MAX
    }

    /// The numerator of the image's x coordinate.
    pub open spec fn num_x(self, x: int, y: int) -> int {
        self.a * x + self.c * y + self.e
    }

    /// The numerator of the image's y coordinate.
    pub open spec fn num_y(self, x: int, y: int) -> int {
        self.b * x + self.d * y + self.f
    }

    /// The image of `p`, or `None` where it falls beyond `COORD_LIMIT`.
    pub open spec fn image(self, p: Point) -> Option<Point> {
        let x = trunc_div(self.num_x(p.x as int, p.y as int), self.den as int);
        let y = trunc_div(self.num_y(p.x as int, p.y as int), self.den as int);
        if -COORD_LIMIT <= x <= COORD_LIMIT && -COORD_LIMIT <= y <= COORD_LIMIT {
            Some(Point { x: x as i64, y: y as i64 })
        } else {
            None
        }
    }

    /// Maps `p` into canonical space; `None` where the image falls beyond `COORD_LIMIT`.
    pub fn apply(&self, p: Point) -> (r: Option<Point>)
        requires
            self.wf(),
            p.wf(),
        ensures
            r == self.image(p),
            r matches Some(q) ==> q.wf(),
    {
        let x = p.x as i128;
        let y = p.y as i128;
        assert(-20282409603651670423947251286016 <= self.a * x <= 20282409603651670423947251286016) by (nonlinear_arith)
            requires
                -LINEAR_LIMIT <= self.a <= LINEAR_LIMIT,
                -COORD_LIMIT <= x <= COORD_LIMIT,
        ;
        assert(-20282409603651670423947251286016 <= self.b * x <= 20282409603651670423947251286016) by (nonlinear_arith)
            requires
                -LINEAR_LIMIT <= self.b <= LINEAR_LIMIT,
                -COORD_LIMIT <= x <= COORD_LIMIT,
        ;
        assert(-20282409603651670423947251286016 <= self.c * y <= 20282409603651670423947251286016) by (nonlinear_arith)
            requires
                -LINEAR_LIMIT <= self.c <= LINEAR_LIMIT,
                -COORD_LIMIT <= y <= COORD_LIMIT,
        ;
        assert(-20282409603651670423947251286016 <= self.d * y <= 20282409603651670423947251286016) by (nonlinear_arith)
            requires
                -LINEAR_LIMIT <= self.d <= LINEAR_LIMIT,
                -COORD_LIMIT <= y <= COORD_LIMIT,
        ;
        let nx = self.a * x + self.c * y + self.e;
        let ny = self.b * x + self.d * y + self.f;
        let qx = div_toward_zero(nx, self.den);
        let qy = div_toward_zero(ny, self.den);
        if -(COORD_LIMIT as i128) <= qx && qx <= COORD_LIMIT as i128 && -(COORD_LIMIT as i128) <= qy && qy
            <= COORD_LIMIT as i128 {
            Some(Point { x: qx as i64, y: qy as i64 })
        } else {
            None
        }
    }
}

/// The transform into canonical space for a shape with transform `base` in a
/// view box of the given size.
pub open spec fn composed(base: ShapeTransform, view_width: int, view_height: int) -> Result<Transform, SynthError> {
    let m = if view_width >= view_height {
        view_width
    } else {
        view_height
    };
    if m <= 0 {
        Err(SynthError::ConfigurationError)
    } else {
        Ok(
            Transform {
                a: (2 * base.a) as i128,
                b: (-2 * base.b) as i128,
                c: (2 * base.c) as i128,
                d: (-2 * base.d) as i128,
                e: (UNIT * (2 * base.e - view_width)) as i128,
                f: (-(UNIT * (2 * base.f - view_height))) as i128,
                den: m as i128,
            },
        )
    }
}

/// Composes the transform into canonical space for a shape: first the shape's
/// own transform, then a shift by minus half the view box, then a uniform
/// scale that maps the larger view-box dimension to two units, with y
/// negated. Fails when the view box has no positive dimension.
pub fn transform(base: &ShapeTransform, view_width: i64, view_height: i64) -> (r: Result<Transform, SynthError>)
    ensures
        r == composed(*base, view_width as int, view_height as int),
        (view_width <= 0 && view_height <= 0) <==> r == Err::<Transform, SynthError>(SynthError::ConfigurationError),
        r matches Ok(t) ==> {
            &&& t.wf()
            &&& t.den == if view_width >= view_height { view_width } else { view_height }
            &&& forall|x: int, y: int| #[trigger]
                t.num_x(x, y) == 2 * shape_x(*base, x, y) - view_width * UNIT
            &&& forall|x: int, y: int| #[trigger]
                t.num_y(x, y) == -(2 * shape_y(*base, x, y) - view_height * UNIT)
        },
{
    let m: i64 = if view_width >= view_height { view_width } else { view_height };
    if m <= 0 {
        return Err(SynthError::ConfigurationError);
    }
    let unit = UNIT as i128;
    let t = Transform {
        a: 2 * base.a as i128,
        b: -2 * base.b as i128,
        c: 2 * base.c as i128,
        d: -2 * base.d as i128,
        e: unit * (2 * base.e as i128 - view_width as i128),
        f: -(unit * (2 * base.f as i128 - view_height as i128)),
        den: m as i128,
    };
    assert forall|x: int, y: int| #[trigger]
        t.num_x(x, y) == 2 * shape_x(*base, x, y) - view_width * UNIT by {
        assert(t.num_x(x, y) == 2 * shape_x(*base, x, y) - view_width * UNIT) by (nonlinear_arith)
            requires
                t.a == 2 * base.a,
                t.c == 2 * base.c,
                t.e == UNIT * (2 * base.e - view_width),
        ;
    }
    assert forall|x: int, y: int| #[trigger]
        t.num_y(x, y) == -(2 * shape_y(*base, x, y) - view_height * UNIT) by {
        assert(t.num_y(x, y) == -(2 * shape_y(*base, x, y) - view_height * UNIT)) by (nonlinear_arith)
            requires
                t.b == -2 * base.b,
                t.d == -2 * base.d,
                t.f == -(UNIT * (2 * base.f - view_height)),
        ;
    }
    Ok(t)
}

} // verus!
