//! What the dish shows: every bot, then every trace.

use vstd::prelude::*;
use crate::bot::Bot;
use crate::dish::{Dish, DishModel};
use crate::shape::{Line, Shape};
use crate::trace::{segments, Trace};
use crate::vec2::Vec2;

verus! {

/// The shapes of one bot: its disc and, where `lines` is set, the line to
/// where it is heading.
pub open spec fn bot_shapes(bot: Bot, lines: bool, wind: Vec2) -> Seq<Shape> {
    if lines {
        seq![Shape::Circle(bot.disc()), Shape::Line(bot.pointer(wind))]
    } else {
        seq![Shape::Circle(bot.disc())]
    }
}

/// The shapes of the bots, in the order of the bots.
pub open spec fn bots_drawn(bots: Seq<Bot>, lines: bool, wind: Vec2) -> Seq<Shape>
    decreases bots.len(),
{
    if bots.len() == 0 {
        Seq::empty()
    } else {
        bots_drawn(bots.drop_last(), lines, wind) + bot_shapes(bots.last(), lines, wind)
    }
}

/// The segments of the traces, oldest first.
pub open spec fn traces_drawn(traces: Seq<Trace>) -> Seq<Shape> {
    Seq::new(traces.len(), |i: int| Shape::Line(traces[i].segment()))
}

/// Everything the dish shows: the bots first, the traces over them.
pub open spec fn drawn(dish: DishModel) -> Seq<Shape> {
    bots_drawn(dish.bots, dish.bot_lines, dish.wind) + traces_drawn(dish.traces)
}

impl Dish {
    /// The shapes of the bots.
    pub fn draw_bots(&self) -> (shapes: Vec<Shape>)
        ensures
            shapes@ == bots_drawn(self@.bots, self@.bot_lines, self@.wind),
    {
        let mut shapes: Vec<Shape> = Vec::new();
        let mut i: usize = 0;
        assert(self.bots@.take(0) =~= Seq::<Bot>::empty());
        while i < self.bots.len()
            invariant
                i <= self.bots@.len(),
                shapes@ == bots_drawn(self.bots@.take(i as int), self.bot_lines, self.wind),
            decreases self.bots@.len() - i,
        {
            let ghost so_far = shapes@;
            let bot: Bot = self.bots[i];
            shapes.push(Shape::Circle(bot.circle()));
            if self.bot_lines {
                shapes.push(Shape::Line(bot.line(self.wind)));
            }
            proof {
                let next = self.bots@.take(i + 1);
                assert(next.drop_last() =~= self.bots@.take(i as int));
                assert(next.last() == bot);
                assert(shapes@ =~= so_far + bot_shapes(bot, self.bot_lines, self.wind));
            }
            i = i + 1;
        }
        assert(self.bots@.take(i as int) =~= self.bots@);
        shapes
    }

    /// The shapes of the traces.
    pub fn draw_traces(&self) -> (shapes: Vec<Shape>)
        ensures
            shapes@ == traces_drawn(self@.traces),
    {
        let lines: Vec<Line> = self.traces.render_all();
        let mut shapes: Vec<Shape> = Vec::new();
        let mut i: usize = 0;
        while i < lines.len()
            invariant
                i <= lines@.len(),
                lines@ == segments(self.traces@),
                shapes@.len() == i,
                forall|j: int| 0 <= j < i ==> shapes@[j] == Shape::Line(lines@[j]),
            decreases lines@.len() - i,
        {
            shapes.push(Shape::Line(lines[i]));
            i = i + 1;
        }
        assert(shapes@ =~= traces_drawn(self.traces@));
        shapes
    }

    /// Everything to draw in a frame, in the order in which it is drawn.
    pub fn draw(&self) -> (shapes: Vec<Shape>)
        ensures
            shapes@ == drawn(self@),
    {
        let mut shapes: Vec<Shape> = self.draw_bots();
        let mut over: Vec<Shape> = self.draw_traces();
        shapes.append(&mut over);
        shapes
    }
}

/// The dish shows one disc for each bot, and with the lines on one line
/// after each disc.
pub proof fn lemma_bots_drawn_at(bots: Seq<Bot>, lines: bool, wind: Vec2, i: int)
    requires
        0 <= i < bots.len(),
    ensures
        lines ==> bots_drawn(bots, lines, wind).len() == 2 * bots.len() && bots_drawn(
            bots,
            lines,
            wind,
        )[2 * i] == Shape::Circle(bots[i].disc()) && bots_drawn(bots, lines, wind)[2 * i + 1]
            == Shape::Line(bots[i].pointer(wind)),
        !lines ==> bots_drawn(bots, lines, wind).len() == bots.len() && bots_drawn(
            bots,
            lines,
            wind,
        )[i] == Shape::Circle(bots[i].disc()),
    decreases bots.len(),
{
    lemma_bots_drawn_len(bots, lines, wind);
    lemma_bots_drawn_len(bots.drop_last(), lines, wind);
    if i < bots.len() - 1 {
        lemma_bots_drawn_at(bots.drop_last(), lines, wind, i);
    }
}

/// The number of shapes that the bots are shown with.
pub proof fn lemma_bots_drawn_len(bots: Seq<Bot>, lines: bool, wind: Vec2)
    ensures
        bots_drawn(bots, lines, wind).len() == if lines {
            2 * bots.len()
        } else {
            bots.len()
        },
    decreases bots.len(),
{
    if bots.len() > 0 {
        lemma_bots_drawn_len(bots.drop_last(), lines, wind);
    }
}

} // verus!
