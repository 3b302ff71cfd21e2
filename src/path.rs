//! Path commands of a document, and their conversion into path events.

use vstd::prelude::*;
use crate::geom::Point;

verus! {

/// One command of a document path; coordinates in ticks.
#[derive(Clone, Copy, Debug, PartialEq, Eq, Structural)]
pub enum PathSegment {
    MoveTo { x: i64, y: i64 },
    LineTo { x: i64, y: i64 },
    CurveTo { x1: i64, y1: i64, x2: i64, y2: i64, x: i64, y: i64 },
    ClosePath,
}

/// One event of a subpath: its start, a straight or cubic piece, or its end.
#[derive(Clone, Copy, Debug, PartialEq, Eq, Structural)]
pub enum PathEvent {
    Begin { at: Point },
    Line { from: Point, to: Point },
    Cubic { from: Point, ctrl1: Point, ctrl2: Point, to: Point },
    End { last: Point, first: Point, close: bool },
}

/// The events that the commands `segs` give, when the pen stands at `prev`,
/// the current subpath started at `first`, and `open` says whether that
/// subpath still needs its end event.
pub open spec fn events_from(segs: Seq<PathSegment>, prev: Point, first: Point, open: bool) -> Seq<PathEvent>
    decreases segs.len(),
{
    if segs.len() == 0 {
        if open {
            seq![PathEvent::End { last: prev, first, close: false }]
        } else {
            seq![]
        }
    } else {
        let rest = segs.subrange(1, segs.len() as int);
        match segs[0] {
            PathSegment::MoveTo { x, y } => {
                let p = Point { x, y };
                let begun = seq![PathEvent::Begin { at: p }] + events_from(rest, p, p, false);
                if open {
                    seq![PathEvent::End { last: prev, first, close: false }] + begun
                } else {
                    begun
                }
            },
            PathSegment::LineTo { x, y } => {
                let p = Point { x, y };
                seq![PathEvent::Line { from: prev, to: p }] + events_from(rest, p, first, true)
            },
            PathSegment::CurveTo { x1, y1, x2, y2, x, y } => {
                let p = Point { x, y };
                seq![
                    PathEvent::Cubic {
                        from: prev,
                        ctrl1: Point { x: x1, y: y1 },
                        ctrl2: Point { x: x2, y: y2 },
                        to: p,
                    },
                ] + events_from(rest, p, first, true)
            },
            PathSegment::ClosePath => {
                seq![PathEvent::End { last: prev, first, close: true }] + events_from(rest, first, first, false)
            },
        }
    }
}

/// The events of a whole path: every subpath opens with `Begin` and closes
/// with `End`, and a closing command ends it with `close` set.
pub open spec fn path_events(segs: Seq<PathSegment>) -> Seq<PathEvent> {
    events_from(segs, Point { x: 0, y: 0 }, Point { x: 0, y: 0 }, false)
}

/// Yields, one at a time, the events that a path's commands give.
pub struct PathConvIter {
    segments: Vec<PathSegment>,
    pos: usize,
    prev: Point,
    first: Point,
    needs_end: bool,
    deferred: Option<PathEvent>,
}

impl PathConvIter {
    pub closed spec fn wf(&self) -> bool {
        self.pos <= self.segments@.len()
    }

    /// The events still to come.
    pub closed spec fn remaining(&self) -> Seq<PathEvent> {
        let pending = match self.deferred {
            Some(e) => seq![e],
            None => seq![],
        };
        pending + events_from(
            self.segments@.subrange(self.pos as int, self.segments@.len() as int),
            self.prev,
            self.first,
            self.needs_end,
        )
    }

    /// The next event, if any is left.
    pub fn next(&mut self) -> (r: Option<PathEvent>)
        requires
            old(self).wf(),
        ensures
            final(self).wf(),
            old(self).remaining().len() == 0 ==> r is None && final(self).remaining() == old(self).remaining(),
            old(self).remaining().len() > 0 ==> r == Some(old(self).remaining()[0]) && final(self).remaining()
                == old(self).remaining().drop_first(),
    {
        let ghost before = self.remaining();
        match self.deferred {
            Some(e) => {
                self.deferred = None;
                assert(self.remaining() =~= before.drop_first());
                return Some(e);
            },
            None => {},
        }
        if self.pos >= self.segments.len() {
            assert(self.segments@.subrange(self.pos as int, self.segments@.len() as int).len() == 0);
            if self.needs_end {
                self.needs_end = false;
                let ev = PathEvent::End { last: self.prev, first: self.first, close: false };
                assert(self.remaining() =~= before.drop_first());
                return Some(ev);
            } else {
                assert(before =~= Seq::<PathEvent>::empty());
                return None;
            }
        }
        let ghost segs = self.segments@.subrange(self.pos as int, self.segments@.len() as int);
        assert(segs.subrange(1, segs.len() as int) =~= self.segments@.subrange(
            self.pos + 1,
            self.segments@.len() as int,
        ));
        let seg = self.segments[self.pos];
        assert(segs[0] == seg);
        self.pos = self.pos + 1;
        match seg {
            PathSegment::MoveTo { x, y } => {
                let p = Point::new(x, y);
                if self.needs_end {
                    let last = self.prev;
                    let first = self.first;
                    self.needs_end = false;
                    self.prev = p;
                    self.first = p;
                    self.deferred = Some(PathEvent::Begin { at: p });
                    assert(self.remaining() =~= before.drop_first());
                    Some(PathEvent::End { last, first, close: false })
                } else {
                    self.prev = p;
                    self.first = p;
                    assert(self.remaining() =~= before.drop_first());
                    Some(PathEvent::Begin { at: p })
                }
            },
            PathSegment::LineTo { x, y } => {
                let from = self.prev;
                self.needs_end = true;
                self.prev = Point::new(x, y);
                assert(self.remaining() =~= before.drop_first());
                Some(PathEvent::Line { from, to: self.prev })
            },
            PathSegment::CurveTo { x1, y1, x2, y2, x, y } => {
                let from = self.prev;
                self.needs_end = true;
                self.prev = Point::new(x, y);
                assert(self.remaining() =~= before.drop_first());
                Some(
                    PathEvent::Cubic {
                        from,
                        ctrl1: Point::new(x1, y1),
                        ctrl2: Point::new(x2, y2),
                        to: self.prev,
                    },
                )
            },
            PathSegment::ClosePath => {
                let last = self.prev;
                self.needs_end = false;
                self.prev = self.first;
                assert(self.remaining() =~= before.drop_first());
                Some(PathEvent::End { last, first: self.first, close: true })
            },
        }
    }

    /// Takes all the events still to come, in order.
    pub fn collect_events(&mut self) -> (r: Vec<PathEvent>)
        requires
            old(self).wf(),
        ensures
            final(self).wf(),
            r@ == old(self).remaining(),
            final(self).remaining().len() == 0,
    {
        let ghost all = old(self).remaining();
        let mut out: Vec<PathEvent> = Vec::new();
        loop
            invariant
                self.wf(),
                all == old(self).remaining(),
                all == out@ + self.remaining(),
            decreases self.remaining().len(),
        {
            let ghost before = self.remaining();
            match self.next() {
                Some(e) => {
                    out.push(e);
                    assert(all =~= out@ + self.remaining());
                },
                None => {
                    assert(all =~= out@);
                    return out;
                },
            }
        }
    }
}

/// Starts the conversion of a path's commands into path events.
pub fn convert_path(data: Vec<PathSegment>) -> (r: PathConvIter)
    ensures
        r.wf(),
        r.remaining() == path_events(data@),
{
    let r = PathConvIter {
        segments: data,
        pos: 0,
        first: Point::new(0, 0),
        prev: Point::new(0, 0),
        deferred: None,
        needs_end: false,
    };
    assert(r.segments@.subrange(0, r.segments@.len() as int) =~= data@);
    assert(r.remaining() =~= path_events(data@));
    r
}

} // verus!
