//! The traces of the wind: short marks that drift against it, kept in a
//! bounded first-in, first-out buffer.

use vstd::prelude::*;
use crate::random::{RandomSource, SourceModel};
use crate::shape::{Color, Line, LINE_WIDTH};
use crate::vec2::Vec2;

verus! {

/// The buffer holds at most this many traces.
pub const CAPACITY: usize = 100;

/// A trace moves by this many times its direction in a generation: `3.0`.
pub const AGING_STEP: i64 = 3_000_000;

/// A trace is drawn this many times its direction to either side: `2.5`.
pub const HALF_LENGTH: i64 = 2_500_000;

/// A mark of the wind: where it is, and the wind at the time it was made.
#[derive(Clone, Copy, Debug, PartialEq, Eq, Structural)]
pub struct Trace {
    pub origin: Vec2,
    pub direction: Vec2,
}

impl Trace {
    /// The trace one generation later: moved back by three times its
    /// direction, which it keeps.
    pub open spec fn aged(self) -> Trace {
        Trace {
            origin: self.origin.subtracted(self.direction.scaled(AGING_STEP)),
            direction: self.direction,
        }
    }

    /// The white segment that shows the trace: from the origin less `2.5`
    /// times the direction to the origin plus as much.
    pub open spec fn segment(self) -> Line {
        Line {
            from: self.origin.subtracted(self.direction.scaled(HALF_LENGTH)),
            to: self.origin.added(self.direction.scaled(HALF_LENGTH)),
            width: LINE_WIDTH,
            color: Color::white(),
        }
    }

    pub fn new(origin: Vec2, direction: Vec2) -> (trace: Trace)
        ensures
            trace == (Trace { origin, direction }),
    {
        Trace { origin, direction }
    }

    /// Ages the trace by one generation.
    pub fn update(&mut self)
        ensures
            *final(self) == old(self).aged(),
    {
        self.origin = self.origin.minus(self.direction.times(AGING_STEP));
    }

    /// The segment to draw.
    pub fn draw(&self) -> (line: Line)
        ensures
            line == self.segment(),
    {
        let reach: Vec2 = self.direction.times(HALF_LENGTH);
        Line {
            from: self.origin.minus(reach),
            to: self.origin.plus(reach),
            width: LINE_WIDTH,
            color: Color { r: 1_000_000, g: 1_000_000, b: 1_000_000, a: 1_000_000 },
        }
    }
}

/// The buffer after `trace` is recorded: the trace is appended, and the
/// oldest one leaves if that makes more than [`CAPACITY`].
pub open spec fn inserted(traces: Seq<Trace>, trace: Trace) -> Seq<Trace> {
    if traces.len() + 1 > CAPACITY {
        traces.push(trace).drop_first()
    } else {
        traces.push(trace)
    }
}

/// The buffer after each of `items` is recorded in turn.
pub open spec fn inserted_all(traces: Seq<Trace>, items: Seq<Trace>) -> Seq<Trace>
    decreases items.len(),
{
    if items.len() == 0 {
        traces
    } else {
        inserted(inserted_all(traces, items.drop_last()), items.last())
    }
}

/// Every trace aged by one generation.
pub open spec fn aged_all(traces: Seq<Trace>) -> Seq<Trace> {
    Seq::new(traces.len(), |i: int| traces[i].aged())
}

/// The segments of the traces, oldest first.
pub open spec fn segments(traces: Seq<Trace>) -> Seq<Line> {
    Seq::new(traces.len(), |i: int| traces[i].segment())
}

/// The last `min(all.len(), CAPACITY)` items of `all`.
pub open spec fn newest(all: Seq<Trace>) -> Seq<Trace> {
    if all.len() > CAPACITY {
        all.subrange(all.len() - CAPACITY, all.len() as int)
    } else {
        all
    }
}

/// The point that a scripted source places a trace at on a screen of the
/// given size: the x coordinate is drawn first.
pub open spec fn foretold_origin(source: SourceModel, screen: Vec2) -> Vec2 {
    Vec2 {
        x: source.pick(0, screen.x as int) as i64,
        y: source.skip(1).pick(0, screen.y as int) as i64,
    }
}

/// The bounded, time-ordered collection of traces, oldest first.
pub struct TraceBuffer {
    traces: Vec<Trace>,
}

impl View for TraceBuffer {
    type V = Seq<Trace>;

    closed spec fn view(&self) -> Seq<Trace> {
        self.traces@
    }
}

impl TraceBuffer {
    /// The buffer never holds more than [`CAPACITY`] traces.
    pub open spec fn wf(&self) -> bool {
        self@.len() <= CAPACITY
    }

    /// An empty buffer.
    pub fn new() -> (buffer: TraceBuffer)
        ensures
            buffer@ == Seq::<Trace>::empty(),
            buffer.wf(),
    {
        TraceBuffer { traces: Vec::new() }
    }

    /// The number of traces held.
    pub fn len(&self) -> (n: usize)
        ensures
            n == self@.len(),
    {
        self.traces.len()
    }

    /// The trace at `index`, counted from the oldest.
    pub fn get(&self, index: usize) -> (trace: Option<Trace>)
        ensures
            trace == if index < self@.len() {
                Some(self@[index as int])
            } else {
                None
            },
    {
        if index < self.traces.len() {
            Some(self.traces[index])
        } else {
            None
        }
    }

    /// Appends `trace`, and then removes the oldest trace if the buffer
    /// holds more than [`CAPACITY`].
    pub fn insert(&mut self, trace: Trace)
        requires
            old(self).wf(),
        ensures
            final(self).wf(),
            final(self)@ == inserted(old(self)@, trace),
    {
        self.traces.push(trace);
        if self.traces.len() > CAPACITY {
            self.traces.remove(0);
            assert(self.traces@ =~= old(self).traces@.push(trace).drop_first());
        }
    }

    /// Records the wind: a trace of direction `wind` is made at a point
    /// drawn from the screen's rectangle, and inserted.
    pub fn record(&mut self, source: &mut RandomSource, screen: Vec2, wind: Vec2)
        requires
            old(self).wf(),
            old(source)@.wf(),
            screen.x > 0,
            screen.y > 0,
        ensures
            final(self).wf(),
            final(source)@.wf(),
            final(source)@ == old(source)@.skip(2),
            exists|origin: Vec2| #[trigger]
                origin.floors_to_origin(screen) && final(self)@ == inserted(
                    old(self)@,
                    Trace { origin, direction: wind },
                ),
            old(source)@.scripted() ==> final(self)@ == inserted(
                old(self)@,
                Trace { origin: foretold_origin(old(source)@, screen), direction: wind },
            ),
    {
        proof {
            reveal_with_fuel(SourceModel::skip, 3);
        }
        let x: i64 = source.range(0, screen.x);
        let y: i64 = source.range(0, screen.y);
        let origin: Vec2 = Vec2::new(x, y);
        assert(origin.floors_to_origin(screen));
        self.insert(Trace::new(origin, wind));
    }

    /// Ages every trace by one generation. None is removed.
    pub fn age_all(&mut self)
        ensures
            final(self)@ == aged_all(old(self)@),
            final(self).wf() == old(self).wf(),
    {
        let mut i: usize = 0;
        while i < self.traces.len()
            invariant
                i <= self.traces@.len(),
                self.traces@.len() == old(self).traces@.len(),
                forall|j: int| 0 <= j < i ==> self.traces@[j] == old(self).traces@[j].aged(),
                forall|j: int|
                    i <= j < self.traces@.len() ==> self.traces@[j] == old(self).traces@[j],
            decreases self.traces@.len() - i,
        {
            let mut trace: Trace = self.traces[i];
            trace.update();
            self.traces[i] = trace;
            i = i + 1;
        }
        assert(self.traces@ =~= aged_all(old(self).traces@));
    }

    /// The segments to draw, oldest trace first.
    pub fn render_all(&self) -> (lines: Vec<Line>)
        ensures
            lines@ == segments(self@),
    {
        let mut lines: Vec<Line> = Vec::new();
        let mut i: usize = 0;
        while i < self.traces.len()
            invariant
                i <= self.traces@.len(),
                lines@.len() == i,
                forall|j: int| 0 <= j < i ==> lines@[j] == self.traces@[j].segment(),
            decreases self.traces@.len() - i,
        {
            lines.push(self.traces[i].draw());
            i = i + 1;
        }
        assert(lines@ =~= segments(self.traces@));
        lines
    }
}

/// Recording never leaves more than [`CAPACITY`] traces in a buffer that
/// held no more before.
pub proof fn lemma_inserted_is_bounded(traces: Seq<Trace>, trace: Trace)
    requires
        traces.len() <= CAPACITY,
    ensures
        inserted(traces, trace).len() <= CAPACITY,
        inserted(traces, trace).last() == trace,
{
}

/// First in, first out: after any run of recordings the buffer holds the
/// newest of all the traces it was ever given, at most [`CAPACITY`] of them,
/// in the order in which they came.
pub proof fn lemma_inserted_all_keeps_newest(traces: Seq<Trace>, items: Seq<Trace>)
    requires
        traces.len() <= CAPACITY,
    ensures
        inserted_all(traces, items) == newest(traces + items),
        inserted_all(traces, items).len() <= CAPACITY,
    decreases items.len(),
{
    if items.len() == 0 {
        assert(traces + items =~= traces);
    } else {
        let front = items.drop_last();
        lemma_inserted_all_keeps_newest(traces, front);
        let before = newest(traces + front);
        assert((traces + front).push(items.last()) =~= traces + items);
        assert(inserted(before, items.last()) =~= newest(traces + items));
    }
}

} // verus!
