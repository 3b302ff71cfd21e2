//! Sampling of drawn segments and eased jumps between subpaths.

use vstd::prelude::*;
use crate::arith::{div_toward_zero, lemma_lerp_between, lerp, max_int, min_int};
use crate::geom::{dist_sq, is_floor_sqrt, lemma_floor_sqrt_unique, length, seg_length, Point};
use crate::{SynthConfig, EASE_ONE, MICROS_PER_SECOND, UNIT};

verus! {

/// Number of samples that `micros` microseconds per unit of length give to a
/// length of `len` ticks, rounded down.
pub open spec fn timed_samples(rate: int, micros: int, len: int) -> int {
    (rate * micros * len) / (MICROS_PER_SECOND * UNIT) as int
}

/// Samples spent drawing the segment from `a` to `b`: at least one.
pub open spec fn line_sample_count(cfg: SynthConfig, a: Point, b: Point) -> int {
    let n = timed_samples(cfg.sample_rate as int, cfg.dwell_us as int, seg_length(a, b));
    if n < 1 {
        1
    } else {
        n
    }
}

/// Samples spent jumping from `a` to `b`; zero when the jump is short.
pub open spec fn transit_sample_count(cfg: SynthConfig, a: Point, b: Point) -> int {
    timed_samples(cfg.sample_rate as int, cfg.transit_us as int, seg_length(a, b))
}

/// The point `num / den` of the way from `a` to `b`.
pub open spec fn lerp_point(a: Point, b: Point, num: int, den: int) -> Point {
    Point { x: lerp(a.x as int, b.x as int, num, den) as i64, y: lerp(a.y as int, b.y as int, num, den) as i64 }
}

/// The `n` evenly spaced points from `a` towards `b`, `a` included and `b` not.
pub open spec fn line_points(a: Point, b: Point, n: int) -> Seq<Point> {
    Seq::new(n as nat, |i: int| lerp_point(a, b, i, n))
}

/// What sampling the segment from `a` to `b` emits.
pub open spec fn drawn_line(cfg: SynthConfig, a: Point, b: Point) -> Seq<Point> {
    line_points(a, b, line_sample_count(cfg, a, b))
}

/// `u` raised to the power `k`, where `EASE_ONE` stands for one, each product
/// rounded down.
pub open spec fn pow_fixed(u: int, k: nat) -> int
    decreases k,
{
    if k == 0 {
        EASE_ONE as int
    } else {
        pow_fixed(u, (k - 1) as nat) * u / EASE_ONE as int
    }
}

/// The easing curve on the first half: `(2x)^k / 2`, which is `x^k / 0.5^(k-1)`.
pub open spec fn ease_in_half(k: nat, x: int) -> int {
    pow_fixed(2 * x, k) / 2
}

/// The easing curve on the second half: `1 - (2 - 2x)^k / 2`.
pub open spec fn ease_out_half(k: nat, x: int) -> int {
    EASE_ONE - pow_fixed(2 * (EASE_ONE - x), k) / 2
}

/// The easing curve of order `k` at progress `x`, where `EASE_ONE` stands for one.
pub open spec fn ease(k: nat, x: int) -> int {
    if 2 * x <= EASE_ONE {
        ease_in_half(k, x)
    } else {
        ease_out_half(k, x)
    }
}

/// The `i`-th of `n` points of an eased jump from `a` to `b`.
pub open spec fn eased_point(k: nat, a: Point, b: Point, i: int, n: int) -> Point {
    lerp_point(a, b, ease(k, (i * EASE_ONE) / n), EASE_ONE as int)
}

/// What a jump to `to` emits: `to` alone when there is no previous point or
/// when the jump gets no samples, and otherwise the eased points from the
/// previous point towards `to`.
pub open spec fn transit_points(cfg: SynthConfig, from: Option<Point>, to: Point) -> Seq<Point> {
    match from {
        None => seq![to],
        Some(a) => {
            let n = transit_sample_count(cfg, a, to);
            if n == 0 {
                seq![to]
            } else {
                Seq::new(n as nat, |i: int| eased_point(cfg.easing_order as nat, a, to, i, n))
            }
        },
    }
}

proof fn lemma_lerp_point_wf(a: Point, b: Point, num: int, den: int)
    requires
        a.wf(),
        b.wf(),
        0 <= num <= den,
        den > 0,
    ensures
        lerp_point(a, b, num, den).wf(),
        lerp_point(a, b, num, den).x == lerp(a.x as int, b.x as int, num, den),
        lerp_point(a, b, num, den).y == lerp(a.y as int, b.y as int, num, den),
{
    lemma_lerp_between(a.x as int, b.x as int, num, den);
    lemma_lerp_between(a.y as int, b.y as int, num, den);
}

/// The number of samples for a length, computed without overflow.
fn timed_count(rate: u32, micros: u32, len: u64) -> (r: u128)
    requires
        len < 4398046511104,
    ensures
        r == timed_samples(rate as int, micros as int, len as int),
        r <= 147573952589676412928,
{
    assert((rate as int) * (micros as int) * (len as int) <= 81129638414606663681390495662080) by (nonlinear_arith)
        requires
            rate <= 4294967295,
            micros <= 4294967295,
            len < 4398046511104,
    ;
    assert(0 <= (rate as int) * (micros as int) * (len as int)) by (nonlinear_arith);
    assert(0 <= (rate as int) * (micros as int) <= 18446744065119617025) by (nonlinear_arith)
        requires
            rate <= 4294967295,
            micros <= 4294967295,
    ;
    let total: u128 = rate as u128 * micros as u128 * len as u128;
    let r: u128 = total / (MICROS_PER_SECOND as u128 * UNIT as u128);
    assert(r <= 147573952589676412928) by (nonlinear_arith)
        requires
            r as int == total as int / (MICROS_PER_SECOND as int * UNIT as int),
            total <= 81129638414606663681390495662080,
    ;
    r
}

/// Emits the samples for drawing the segment from `from` towards `to`:
/// `max(1, floor(rate * length * dwell))` evenly spaced points, starting at
/// `from` and stopping short of `to`.
pub fn draw_line(pts: &mut Vec<Point>, from: Point, to: Point, cfg: &SynthConfig)
    requires
        from.wf(),
        to.wf(),
    ensures
        final(pts)@ == old(pts)@ + drawn_line(*cfg, from, to),
        forall|j: int| old(pts)@.len() <= j < final(pts)@.len() ==> #[trigger] final(pts)@[j].wf(),
{
    let len = length(from, to);
    let counted = timed_count(cfg.sample_rate, cfg.dwell_us, len);
    let n: u128 = if counted < 1 { 1 } else { counted };
    assert(n == line_sample_count(*cfg, from, to));
    let dx: i128 = to.x as i128 - from.x as i128;
    let dy: i128 = to.y as i128 - from.y as i128;
    let ghost start = pts@;
    let mut i: u128 = 0;
    while i < n
        invariant
            from.wf(),
            to.wf(),
            i <= n,
            1 <= n <= 147573952589676412928,
            dx == to.x - from.x,
            dy == to.y - from.y,
            pts@.len() == start.len() + i,
            forall|j: int| 0 <= j < start.len() ==> pts@[j] == start[j],
            forall|j: int| 0 <= j < i ==> pts@[start.len() + j] == lerp_point(from, to, j, n as int),
            forall|j: int| start.len() <= j < pts@.len() ==> #[trigger] pts@[j].wf(),
        decreases n - i,
    {
        assert(-324518553658426726783156020576256 <= (i as int) * (dx as int) <= 324518553658426726783156020576256) by (nonlinear_arith)
            requires
                0 <= i <= 147573952589676412928,
                -2199023255552 <= dx <= 2199023255552,
        ;
        assert(-324518553658426726783156020576256 <= (i as int) * (dy as int) <= 324518553658426726783156020576256) by (nonlinear_arith)
            requires
                0 <= i <= 147573952589676412928,
                -2199023255552 <= dy <= 2199023255552,
        ;
        let qx = div_toward_zero(i as i128 * dx, n as i128);
        let qy = div_toward_zero(i as i128 * dy, n as i128);
        proof {
            lemma_lerp_point_wf(from, to, i as int, n as int);
        }
        let p = Point { x: (from.x as i128 + qx) as i64, y: (from.y as i128 + qy) as i64 };
        assert(p == lerp_point(from, to, i as int, n as int));
        pts.push(p);
        i = i + 1;
    }
    assert(pts@ =~= start + drawn_line(*cfg, from, to));
}

/// Sampling a segment of zero length emits its start point once, and nothing else.
pub proof fn lemma_zero_length_segment(cfg: SynthConfig, a: Point)
    ensures
        drawn_line(cfg, a, a) == seq![a],
{
    assert(dist_sq(a, a) == 0);
    assert(is_floor_sqrt(0, 0));
    lemma_floor_sqrt_unique(seg_length(a, a), 0, 0);
    assert(timed_samples(cfg.sample_rate as int, cfg.dwell_us as int, 0) == 0);
    assert(line_sample_count(cfg, a, a) == 1);
    assert(lerp_point(a, a, 0, 1) == a);
    assert(drawn_line(cfg, a, a) =~= seq![a]);
}

/// A jump with no previous point emits its destination, and nothing else.
pub proof fn lemma_jump_without_origin(cfg: SynthConfig, to: Point)
    ensures
        transit_points(cfg, None, to) == seq![to],
{
}

proof fn lemma_pow_fixed_range(u: int, k: nat)
    requires
        0 <= u <= EASE_ONE,
    ensures
        0 <= pow_fixed(u, k) <= EASE_ONE,
    decreases k,
{
    if k > 0 {
        lemma_pow_fixed_range(u, (k - 1) as nat);
        let p = pow_fixed(u, (k - 1) as nat);
        assert(0 <= p * u / EASE_ONE as int <= EASE_ONE) by (nonlinear_arith)
            requires
                0 <= p <= EASE_ONE,
                0 <= u <= EASE_ONE,
        ;
    }
}

proof fn lemma_pow_fixed_monotone(u1: int, u2: int, k: nat)
    requires
        0 <= u1 <= u2 <= EASE_ONE,
    ensures
        pow_fixed(u1, k) <= pow_fixed(u2, k),
    decreases k,
{
    if k > 0 {
        lemma_pow_fixed_monotone(u1, u2, (k - 1) as nat);
        lemma_pow_fixed_range(u1, (k - 1) as nat);
        lemma_pow_fixed_range(u2, (k - 1) as nat);
        let p1 = pow_fixed(u1, (k - 1) as nat);
        let p2 = pow_fixed(u2, (k - 1) as nat);
        assert(p1 * u1 / EASE_ONE as int <= p2 * u2 / EASE_ONE as int) by (nonlinear_arith)
            requires
                0 <= p1 <= p2,
                0 <= u1 <= u2,
        ;
    }
}

proof fn lemma_pow_fixed_ends(k: nat)
    ensures
        pow_fixed(EASE_ONE as int, k) == EASE_ONE,
        k >= 1 ==> pow_fixed(0, k) == 0,
    decreases k,
{
    if k > 0 {
        lemma_pow_fixed_ends((k - 1) as nat);
        assert(pow_fixed(EASE_ONE as int, (k - 1) as nat) * EASE_ONE as int / EASE_ONE as int == EASE_ONE);
        if k > 1 {
            assert(pow_fixed(0, (k - 1) as nat) * 0 / EASE_ONE as int == 0);
        }
    }
}

/// The easing curve stays within `[0, EASE_ONE]` on that interval.
pub proof fn lemma_ease_range(k: nat, x: int)
    requires
        0 <= x <= EASE_ONE,
    ensures
        0 <= ease(k, x) <= EASE_ONE,
        2 * x <= EASE_ONE ==> ease(k, x) <= EASE_ONE / 2,
        2 * x > EASE_ONE ==> ease(k, x) >= EASE_ONE / 2,
{
    if 2 * x <= EASE_ONE {
        lemma_pow_fixed_range(2 * x, k);
    } else {
        lemma_pow_fixed_range(2 * (EASE_ONE - x), k);
    }
}

/// The easing curve starts at zero and ends at one, never decreases on
/// `[0, 1]`, and its two halves agree at the midpoint.
pub proof fn lemma_ease_shape(k: nat, x1: int, x2: int)
    requires
        k >= 2,
        0 <= x1 <= x2 <= EASE_ONE,
    ensures
        ease(k, 0) == 0,
        ease(k, EASE_ONE as int) == EASE_ONE,
        ease(k, x1) <= ease(k, x2),
        ease_in_half(k, (EASE_ONE / 2) as int) == ease_out_half(k, (EASE_ONE / 2) as int),
        ease(k, (EASE_ONE / 2) as int) == EASE_ONE / 2,
{
    lemma_pow_fixed_ends(k);
    lemma_ease_range(k, x1);
    lemma_ease_range(k, x2);
    if 2 * x2 <= EASE_ONE {
        lemma_pow_fixed_monotone(2 * x1, 2 * x2, k);
    } else if 2 * x1 > EASE_ONE {
        lemma_pow_fixed_monotone(2 * (EASE_ONE - x2), 2 * (EASE_ONE - x1), k);
    }
}

/// The easing curve of order `k` at progress `x` (`EASE_ONE` stands for one):
/// `x^k / 0.5^(k-1)` up to the midpoint and `1 - (2 - 2x)^k / 2` after it.
pub fn jump_easing(k: u32, x: u64) -> (r: u64)
    requires
        x <= EASE_ONE,
    ensures
        r == ease(k as nat, x as int),
        r <= EASE_ONE,
{
    let first_half = 2 * x <= EASE_ONE;
    let u: u64 = if first_half { 2 * x } else { 2 * (EASE_ONE - x) };
    let mut p: u64 = EASE_ONE;
    let mut j: u32 = 0;
    while j < k
        invariant
            j <= k,
            u <= EASE_ONE,
            p == pow_fixed(u as int, j as nat),
            p <= EASE_ONE,
        decreases k - j,
    {
        assert(p * u <= EASE_ONE * EASE_ONE) by (nonlinear_arith)
            requires
                p <= EASE_ONE,
                u <= EASE_ONE,
        ;
        p = p * u / EASE_ONE;
        j = j + 1;
        proof {
            lemma_pow_fixed_range(u as int, j as nat);
        }
    }
    proof {
        lemma_ease_range(k as nat, x as int);
    }
    if first_half {
        p / 2
    } else {
        EASE_ONE - p / 2
    }
}

/// Emits a jump from `from` to `to`. Without a previous point, or when the
/// jump is too short to get a sample, it emits `to` alone. Otherwise it emits
/// `floor(rate * length * transit)` points from `from` towards `to`, spaced by
/// the easing curve, starting at `from`.
pub fn jump(pts: &mut Vec<Point>, from: Option<Point>, to: Point, cfg: &SynthConfig)
    requires
        to.wf(),
        from matches Some(a) ==> a.wf(),
    ensures
        final(pts)@ == old(pts)@ + transit_points(*cfg, from, to),
        forall|j: int| old(pts)@.len() <= j < final(pts)@.len() ==> #[trigger] final(pts)@[j].wf(),
{
    match from {
        None => {
            pts.push(to);
            assert(pts@ =~= old(pts)@ + transit_points(*cfg, from, to));
        },
        Some(a) => {
            let len = length(a, to);
            let n = timed_count(cfg.sample_rate, cfg.transit_us, len);
            assert(n == transit_sample_count(*cfg, a, to));
            if n == 0 {
                pts.push(to);
                assert(pts@ =~= old(pts)@ + transit_points(*cfg, from, to));
            } else {
                let dx: i128 = to.x as i128 - a.x as i128;
                let dy: i128 = to.y as i128 - a.y as i128;
                let ghost start = pts@;
                let mut i: u128 = 0;
                while i < n
                    invariant
                        a.wf(),
                        to.wf(),
                        i <= n,
                        1 <= n <= 147573952589676412928,
                        n == transit_sample_count(*cfg, a, to),
                        dx == to.x - a.x,
                        dy == to.y - a.y,
                        pts@.len() == start.len() + i,
                        forall|j: int| 0 <= j < start.len() ==> pts@[j] == start[j],
                        forall|j: int|
                            0 <= j < i ==> pts@[start.len() + j] == eased_point(
                                cfg.easing_order as nat,
                                a,
                                to,
                                j,
                                n as int,
                            ),
                        forall|j: int| start.len() <= j < pts@.len() ==> #[trigger] pts@[j].wf(),
                    decreases n - i,
                {
                    assert((i as int) * (EASE_ONE as int) <= 158456325028528675187087900672) by (nonlinear_arith)
                        requires
                            0 <= i <= 147573952589676412928,
                    ;
                    let prod: u128 = i * EASE_ONE as u128;
                    let x: u128 = prod / n;
                    assert(x <= EASE_ONE) by (nonlinear_arith)
                        requires
                            x == prod / n,
                            prod == i * EASE_ONE,
                            i < n,
                    ;
                    let e = jump_easing(cfg.easing_order, x as u64);
                    assert(-2361183241434822606848 <= (e as int) * (dx as int) <= 2361183241434822606848) by (nonlinear_arith)
                        requires
                            0 <= e <= EASE_ONE,
                            -2199023255552 <= dx <= 2199023255552,
                    ;
                    assert(-2361183241434822606848 <= (e as int) * (dy as int) <= 2361183241434822606848) by (nonlinear_arith)
                        requires
                            0 <= e <= EASE_ONE,
                            -2199023255552 <= dy <= 2199023255552,
                    ;
                    let qx = div_toward_zero(e as i128 * dx, EASE_ONE as i128);
                    let qy = div_toward_zero(e as i128 * dy, EASE_ONE as i128);
                    proof {
                        lemma_lerp_point_wf(a, to, e as int, EASE_ONE as int);
                    }
                    let p = Point { x: (a.x as i128 + qx) as i64, y: (a.y as i128 + qy) as i64 };
                    assert(p == eased_point(cfg.easing_order as nat, a, to, i as int, n as int));
                    pts.push(p);
                    i = i + 1;
                }
                assert(pts@ =~= old(pts)@ + transit_points(*cfg, from, to));
            }
        },
    }
}

} // verus!
