//! The whole synthesis run: shapes in, looped sample stream out.

use vstd::prelude::*;
use crate::geom::{composed, transform, Point, ShapeTransform};
use crate::normalize::{normalize, normalize_result};
use crate::path::PathEvent;
use crate::stream::{assemble, interleaved};
use crate::waypoints::{accumulate, finished, step, Accumulator};
use crate::{SynthConfig, SynthError};

verus! {

/// One shape of a document: its declared transform and its flattened events
/// in source coordinates.
#[derive(Debug)]
pub struct Shape {
    pub transform: ShapeTransform,
    pub events: Vec<PathEvent>,
}

/// The buffer after the shapes `shapes`, in order, starting from `pts`.
pub open spec fn shapes_waypoints(
    cfg: SynthConfig,
    view_width: int,
    view_height: int,
    pts: Seq<Point>,
    shapes: Seq<Shape>,
) -> Result<Seq<Point>, SynthError>
    decreases shapes.len(),
{
    if shapes.len() == 0 {
        Ok(pts)
    } else {
        match composed(shapes[0].transform, view_width, view_height) {
            Err(err) => Err(err),
            Ok(t) => match accumulate(cfg, t, pts, shapes[0].events@) {
                Err(err) => Err(err),
                Ok(next) => shapes_waypoints(
                    cfg,
                    view_width,
                    view_height,
                    next,
                    shapes.subrange(1, shapes.len() as int),
                ),
            },
        }
    }
}

/// The waypoint buffer of one full pass over all shapes, home jump included.
pub open spec fn waypoints_result(cfg: SynthConfig, view_width: int, view_height: int, shapes: Seq<Shape>) -> Result<
    Seq<Point>,
    SynthError,
> {
    match shapes_waypoints(cfg, view_width, view_height, Seq::empty(), shapes) {
        Ok(pts) => Ok(finished(cfg, pts)),
        Err(err) => Err(err),
    }
}

/// The parameters of a run are usable: an easing order of at least two, at
/// least one loop, and a view box with a positive dimension.
pub open spec fn config_ok(cfg: SynthConfig, view_width: int, view_height: int) -> bool {
    cfg.easing_order >= 2 && cfg.loops >= 1 && (view_width > 0 || view_height > 0)
}

/// What a whole run gives.
pub open spec fn synthesis_result(cfg: SynthConfig, view_width: int, view_height: int, shapes: Seq<Shape>) -> Result<
    Seq<i64>,
    SynthError,
> {
    if !config_ok(cfg, view_width, view_height) {
        Err(SynthError::ConfigurationError)
    } else {
        match waypoints_result(cfg, view_width, view_height, shapes) {
            Err(err) => Err(err),
            Ok(w) => match normalize_result(w) {
                Err(err) => Err(err),
                Ok(n) => Ok(interleaved(n, cfg.loops as nat)),
            },
        }
    }
}

/// A document with no shapes yields no points, so synthesis fails with
/// `EmptyGeometryError` whenever the parameters are usable.
pub proof fn lemma_empty_document(cfg: SynthConfig, view_width: int, view_height: int)
    requires
        config_ok(cfg, view_width, view_height),
    ensures
        synthesis_result(cfg, view_width, view_height, Seq::empty()) == Err::<Seq<i64>, SynthError>(
            SynthError::EmptyGeometryError,
        ),
{
    assert(waypoints_result(cfg, view_width, view_height, Seq::empty()) == Ok::<Seq<Point>, SynthError>(
        Seq::empty(),
    ));
}

proof fn lemma_accumulate_unfold(cfg: SynthConfig, t: crate::geom::Transform, pts: Seq<Point>, evs: Seq<PathEvent>, i: int)
    requires
        0 <= i < evs.len(),
    ensures
        accumulate(cfg, t, pts, evs.subrange(i, evs.len() as int)) == match step(cfg, t, pts, evs[i]) {
            Ok(next) => accumulate(cfg, t, next, evs.subrange(i + 1, evs.len() as int)),
            Err(err) => Err(err),
        },
{
    let s = evs.subrange(i, evs.len() as int);
    assert(s[0] == evs[i]);
    assert(s.subrange(1, s.len() as int) =~= evs.subrange(i + 1, evs.len() as int));
}

/// Builds the waypoint buffer of one full pass over all shapes, in document
/// order, ending with the jump back to the origin.
pub fn waypoints(shapes: &Vec<Shape>, view_width: i64, view_height: i64, cfg: &SynthConfig) -> (r: Result<
    Vec<Point>,
    SynthError,
>)
    ensures
        match r {
            Ok(v) => waypoints_result(*cfg, view_width as int, view_height as int, shapes@) == Ok::<
                Seq<Point>,
                SynthError,
            >(v@),
            Err(err) => waypoints_result(*cfg, view_width as int, view_height as int, shapes@) == Err::<
                Seq<Point>,
                SynthError,
            >(err),
        },
{
    let ghost vw = view_width as int;
    let ghost vh = view_height as int;
    let ghost all = shapes@;
    let mut acc = Accumulator::new(*cfg);
    assert(all.subrange(0, all.len() as int) =~= all);
    let mut si: usize = 0;
    while si < shapes.len()
        invariant
            all == shapes@,
            vw == view_width as int,
            vh == view_height as int,
            si <= all.len(),
            acc.wf(),
            acc.config() == *cfg,
            shapes_waypoints(*cfg, vw, vh, Seq::empty(), all) == shapes_waypoints(
                *cfg,
                vw,
                vh,
                acc.points(),
                all.subrange(si as int, all.len() as int),
            ),
        decreases all.len() - si,
    {
        let shape = &shapes[si];
        let ghost rest = all.subrange(si as int, all.len() as int);
        assert(rest[0] == shape);
        assert(rest.subrange(1, rest.len() as int) =~= all.subrange(si + 1, all.len() as int));
        let t = match transform(&shape.transform, view_width, view_height) {
            Ok(t) => t,
            Err(err) => return Err(err),
        };
        let ghost start = acc.points();
        let ghost evs = shape.events@;
        assert(rest.len() > 0);
        assert(composed(rest[0].transform, vw, vh) == Ok::<crate::geom::Transform, SynthError>(t));
        assert(rest[0].events@ == evs);
        assert(shapes_waypoints(*cfg, vw, vh, start, rest) == match accumulate(*cfg, t, start, evs) {
            Err(err) => Err(err),
            Ok(next) => shapes_waypoints(*cfg, vw, vh, next, all.subrange(si + 1, all.len() as int)),
        });
        assert(evs.subrange(0, evs.len() as int) =~= evs);
        let mut ei: usize = 0;
        while ei < shape.events.len()
            invariant
                all == shapes@,
                vw == view_width as int,
                vh == view_height as int,
                si < all.len(),
                shapes_waypoints(*cfg, vw, vh, Seq::empty(), all) == match accumulate(*cfg, t, start, evs) {
                    Err(err) => Err(err),
                    Ok(next) => shapes_waypoints(*cfg, vw, vh, next, all.subrange(si + 1, all.len() as int)),
                },
                evs == shape.events@,
                ei <= evs.len(),
                t.wf(),
                acc.wf(),
                acc.config() == *cfg,
                accumulate(*cfg, t, start, evs) == accumulate(
                    *cfg,
                    t,
                    acc.points(),
                    evs.subrange(ei as int, evs.len() as int),
                ),
            decreases evs.len() - ei,
        {
            proof {
                lemma_accumulate_unfold(*cfg, t, acc.points(), evs, ei as int);
            }
            match acc.feed(shape.events[ei], &t) {
                Ok(()) => {},
                Err(err) => {
                    assert(accumulate(*cfg, t, start, evs) == Err::<Seq<Point>, SynthError>(err));
                    return Err(err);
                },
            }
            ei = ei + 1;
        }
        assert(evs.subrange(ei as int, evs.len() as int) =~= Seq::<PathEvent>::empty());
        assert(accumulate(*cfg, t, start, evs) == Ok::<Seq<Point>, SynthError>(acc.points()));
        si = si + 1;
    }
    assert(all.subrange(si as int, all.len() as int) =~= Seq::<Shape>::empty());
    Ok(acc.finish())
}

/// Runs the whole synthesis: checks the parameters, builds the waypoint
/// buffer, normalizes it into the canonical range and assembles the looped,
/// interleaved sample stream. Fails with `ConfigurationError` on unusable
/// parameters, and otherwise with the first error of a later stage.
pub fn synthesize(shapes: &Vec<Shape>, view_width: i64, view_height: i64, cfg: &SynthConfig) -> (r: Result<
    Vec<i64>,
    SynthError,
>)
    ensures
        match r {
            Ok(v) => synthesis_result(*cfg, view_width as int, view_height as int, shapes@) == Ok::<
                Seq<i64>,
                SynthError,
            >(v@),
            Err(err) => synthesis_result(*cfg, view_width as int, view_height as int, shapes@) == Err::<
                Seq<i64>,
                SynthError,
            >(err),
        },
{
    if cfg.easing_order < 2 || cfg.loops < 1 || (view_width <= 0 && view_height <= 0) {
        return Err(SynthError::ConfigurationError);
    }
    let w = match waypoints(shapes, view_width, view_height, cfg) {
        Ok(w) => w,
        Err(err) => return Err(err),
    };
    let n = match normalize(&w) {
        Ok(n) => n,
        Err(err) => return Err(err),
    };
    assemble(&n, cfg.loops)
}

} // verus!
