//! The waypoint accumulator: turns path events into one ordered buffer of
//! canonical points, sampling drawn segments and easing the jumps between
//! subpaths.

use vstd::prelude::*;
use crate::geom::{Point, Transform};
use crate::path::PathEvent;
use crate::sampler::{draw_line, drawn_line, jump, transit_points};
use crate::{SynthConfig, SynthError};

verus! {

/// The last point of a buffer, if it has one.
pub open spec fn last_point(pts: Seq<Point>) -> Option<Point> {
    if pts.len() == 0 {
        None
    } else {
        Some(pts.last())
    }
}

/// The canonical image of a source point; `None` where the source point or
/// its image lies beyond `COORD_LIMIT`.
pub open spec fn canonical(t: Transform, p: Point) -> Option<Point> {
    if p.wf() {
        t.image(p)
    } else {
        None
    }
}

/// A source event carried into canonical space. A cubic event is refused, and
/// so is an event with a point that cannot be mapped.
pub open spec fn canonical_event(t: Transform, ev: PathEvent) -> Result<PathEvent, SynthError> {
    match ev {
        PathEvent::Begin { at } => match canonical(t, at) {
            Some(q) => Ok(PathEvent::Begin { at: q }),
            None => Err(SynthError::ConfigurationError),
        },
        PathEvent::Line { from, to } => match (canonical(t, from), canonical(t, to)) {
            (Some(a), Some(b)) => Ok(PathEvent::Line { from: a, to: b }),
            _ => Err(SynthError::ConfigurationError),
        },
        PathEvent::End { last, first, close } => match (canonical(t, last), canonical(t, first)) {
            (Some(a), Some(b)) => Ok(PathEvent::End { last: a, first: b, close }),
            _ => Err(SynthError::ConfigurationError),
        },
        PathEvent::Cubic { .. } => Err(SynthError::UnsupportedGeometryError),
    }
}

/// What a canonical event appends to the buffer `pts`. `Begin` places the pen
/// directly when the buffer is empty and jumps there otherwise; `Line`
/// samples its segment; `End` samples the closing segment when `close` is
/// set and emits nothing otherwise.
pub open spec fn emission(cfg: SynthConfig, pts: Seq<Point>, ev: PathEvent) -> Seq<Point> {
    match ev {
        PathEvent::Begin { at } => transit_points(cfg, last_point(pts), at),
        PathEvent::Line { from, to } => drawn_line(cfg, from, to),
        PathEvent::End { last, first, close } => if close {
            drawn_line(cfg, last, first)
        } else {
            seq![]
        },
        PathEvent::Cubic { .. } => seq![],
    }
}

/// The buffer after one source event.
pub open spec fn step(cfg: SynthConfig, t: Transform, pts: Seq<Point>, ev: PathEvent) -> Result<Seq<Point>, SynthError> {
    match canonical_event(t, ev) {
        Ok(e) => Ok(pts + emission(cfg, pts, e)),
        Err(err) => Err(err),
    }
}

/// The buffer after a sequence of source events of one shape; the first
/// refused event ends the run.
pub open spec fn accumulate(cfg: SynthConfig, t: Transform, pts: Seq<Point>, evs: Seq<PathEvent>) -> Result<
    Seq<Point>,
    SynthError,
>
    decreases evs.len(),
{
    if evs.len() == 0 {
        Ok(pts)
    } else {
        match step(cfg, t, pts, evs[0]) {
            Ok(next) => accumulate(cfg, t, next, evs.subrange(1, evs.len() as int)),
            Err(err) => Err(err),
        }
    }
}

/// The buffer once the event stream is exhausted: a final jump back to the
/// origin, unless nothing was drawn at all.
pub open spec fn finished(cfg: SynthConfig, pts: Seq<Point>) -> Seq<Point> {
    if pts.len() == 0 {
        pts
    } else {
        pts + transit_points(cfg, Some(pts.last()), Point { x: 0, y: 0 })
    }
}

/// Every point of the buffer lies within `COORD_LIMIT`.
pub open spec fn all_wf(pts: Seq<Point>) -> bool {
    forall|j: int| 0 <= j < pts.len() ==> #[trigger] pts[j].wf()
}

/// Collects the waypoints of one pass over all shapes.
pub struct Accumulator {
    pts: Vec<Point>,
    cfg: SynthConfig,
}

impl Accumulator {
    /// The points accumulated so far, in drawing order.
    pub closed spec fn points(&self) -> Seq<Point> {
        self.pts@
    }

    pub closed spec fn config(&self) -> SynthConfig {
        self.cfg
    }

    pub closed spec fn wf(&self) -> bool {
        all_wf(self.pts@)
    }

    /// An accumulator with no pen position yet.
    pub fn new(cfg: SynthConfig) -> (r: Accumulator)
        ensures
            r.wf(),
            r.points() == Seq::<Point>::empty(),
            r.config() == cfg,
    {
        Accumulator { pts: Vec::new(), cfg }
    }

    /// The points accumulated so far.
    pub fn current(&self) -> (r: &Vec<Point>)
        ensures
            r@ == self.points(),
    {
        &self.pts
    }

    /// Takes one source event of a shape whose transform into canonical
    /// space is `t`. A cubic event fails with `UnsupportedGeometryError`, an
    /// event with a point that cannot be mapped with `ConfigurationError`;
    /// either way the buffer is left as it was.
    pub fn feed(&mut self, ev: PathEvent, t: &Transform) -> (r: Result<(), SynthError>)
        requires
            old(self).wf(),
            t.wf(),
        ensures
            final(self).wf(),
            final(self).config() == old(self).config(),
            match r {
                Ok(()) => step(old(self).config(), *t, old(self).points(), ev) == Ok::<Seq<Point>, SynthError>(
                    final(self).points(),
                ),
                Err(err) => step(old(self).config(), *t, old(self).points(), ev) == Err::<
                    Seq<Point>,
                    SynthError,
                >(err) && final(self).points() == old(self).points(),
            },
    {
        let cfg = self.cfg;
        match ev {
            PathEvent::Begin { at } => {
                let a = match map_point(t, at) {
                    Some(q) => q,
                    None => return Err(SynthError::ConfigurationError),
                };
                let last = if self.pts.len() == 0 {
                    None
                } else {
                    Some(self.pts[self.pts.len() - 1])
                };
                jump(&mut self.pts, last, a, &cfg);
                Ok(())
            },
            PathEvent::Line { from, to } => {
                let a = map_point(t, from);
                let b = map_point(t, to);
                match (a, b) {
                    (Some(a), Some(b)) => {
                        draw_line(&mut self.pts, a, b, &cfg);
                        Ok(())
                    },
                    _ => Err(SynthError::ConfigurationError),
                }
            },
            PathEvent::End { last, first, close } => {
                let a = map_point(t, last);
                let b = map_point(t, first);
                match (a, b) {
                    (Some(a), Some(b)) => {
                        if close {
                            draw_line(&mut self.pts, a, b, &cfg);
                        } else {
                            assert(self.pts@ =~= self.pts@ + Seq::<Point>::empty());
                        }
                        Ok(())
                    },
                    _ => Err(SynthError::ConfigurationError),
                }
            },
            PathEvent::Cubic { .. } => Err(SynthError::UnsupportedGeometryError),
        }
    }

    /// Ends the event stream: jumps from the last point back to the origin,
    /// unless nothing was drawn, and hands over the buffer.
    pub fn finish(self) -> (r: Vec<Point>)
        requires
            self.wf(),
        ensures
            r@ == finished(self.config(), self.points()),
            all_wf(r@),
    {
        let cfg = self.cfg;
        let mut pts = self.pts;
        if pts.len() > 0 {
            let last = pts[pts.len() - 1];
            jump(&mut pts, Some(last), Point::new(0, 0), &cfg);
        }
        pts
    }
}

/// The canonical image of a source point, or `None` where it cannot be had.
fn map_point(t: &Transform, p: Point) -> (r: Option<Point>)
    requires
        t.wf(),
    ensures
        r == canonical(*t, p),
        r matches Some(q) ==> q.wf(),
{
    if -crate::COORD_LIMIT <= p.x && p.x <= crate::COORD_LIMIT && -crate::COORD_LIMIT <= p.y && p.y
        <= crate::COORD_LIMIT {
        t.apply(p)
    } else {
        None
    }
}

} // verus!
