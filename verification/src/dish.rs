//! The dish: the population of bots, the wind and its traces.

use vstd::prelude::*;
use crate::bot::Bot;
use crate::fixed::{half, trunc_div};
use crate::population::{evolution, foretold_evolution, moved_all};
use crate::random::{lemma_skip_keeps_script, RandomSource, SourceModel};
use crate::render::drawn;
use crate::shape::Shape;
use crate::trace::{aged_all, foretold_origin, inserted, Trace, TraceBuffer};
use crate::vec2::Vec2;

verus! {

/// The state of the simulation.
pub struct Dish {
    /// Half the shorter side of the screen.
    pub dish_radius: i64,
    pub bots: Vec<Bot>,
    /// The wind of the current frame.
    pub wind: Vec2,
    /// Where the first bot of an empty dish is put.
    pub center: Vec2,
    pub traces: TraceBuffer,
    /// Whether each bot is drawn with a line to where it is heading.
    pub bot_lines: bool,
}

/// The dish as plain values.
pub struct DishModel {
    pub dish_radius: i64,
    pub bots: Seq<Bot>,
    pub wind: Vec2,
    pub center: Vec2,
    pub traces: Seq<Trace>,
    pub bot_lines: bool,
}

impl View for Dish {
    type V = DishModel;

    open spec fn view(&self) -> DishModel {
        DishModel {
            dish_radius: self.dish_radius,
            bots: self.bots@,
            wind: self.wind,
            center: self.center,
            traces: self.traces@,
            bot_lines: self.bot_lines,
        }
    }
}

/// The keys that a frame looks at.
#[derive(Clone, Copy, Debug, PartialEq, Eq, Structural)]
pub struct Keys {
    /// The key that ends the program was pressed in this frame.
    pub escape: bool,
    /// The key that turns the bots' lines on and off was pressed in this
    /// frame.
    pub space: bool,
    /// The key that runs the simulation at double rate is held down.
    pub enter: bool,
}

/// The radius of the dish on a screen of the given size: half the shorter
/// side.
pub open spec fn radius_on(screen: Vec2) -> i64 {
    if screen.x <= screen.y {
        trunc_div(screen.x as int, 2) as i64
    } else {
        trunc_div(screen.y as int, 2) as i64
    }
}

/// The middle of a screen of the given size.
pub open spec fn center_of(screen: Vec2) -> Vec2 {
    Vec2 { x: trunc_div(screen.x as int, 2) as i64, y: trunc_div(screen.y as int, 2) as i64 }
}

/// The traces after the wind is recorded at `origin` and every trace has
/// aged.
pub open spec fn traced(traces: Seq<Trace>, origin: Vec2, wind: Vec2) -> Seq<Trace> {
    aged_all(inserted(traces, Trace { origin, direction: wind }))
}

/// One update with the draws of a scripted source: the dish and the source
/// after it.
pub open spec fn foretold_update(
    pre: DishModel,
    keys: Keys,
    screen: Vec2,
    source: SourceModel,
) -> (DishModel, SourceModel) {
    let center = center_of(screen);
    let (mid, after_bots) = foretold_evolution(pre.bots, screen, center, source);
    (
        DishModel {
            dish_radius: radius_on(screen),
            bots: moved_all(mid, pre.wind),
            wind: pre.wind,
            center,
            traces: traced(pre.traces, foretold_origin(after_bots, screen), pre.wind),
            bot_lines: pre.bot_lines != keys.space,
        },
        after_bots.skip(2),
    )
}

/// What one update makes of the dish `pre`, whatever is drawn: the keys are
/// looked at, the dish is fitted to the screen, the bots live through one
/// generation, and the wind is recorded and the traces age.
pub open spec fn updated(
    pre: DishModel,
    post: DishModel,
    keys: Keys,
    screen: Vec2,
    source_pre: SourceModel,
    source_post: SourceModel,
) -> bool {
    &&& post.bot_lines == (pre.bot_lines != keys.space)
    &&& post.center == center_of(screen)
    &&& post.dish_radius == radius_on(screen)
    &&& post.wind == pre.wind
    &&& exists|mid: Seq<Bot>| #[trigger]
        evolution(pre.bots, mid, screen, center_of(screen)) && post.bots == moved_all(
            mid,
            pre.wind,
        )
    &&& exists|origin: Vec2| #[trigger]
        origin.floors_to_origin(screen) && post.traces == traced(pre.traces, origin, pre.wind)
    &&& post.traces.len() <= crate::trace::CAPACITY
    &&& source_post.wf()
    &&& source_post.script == source_pre.script
    &&& source_pre.scripted() ==> (post, source_post) == foretold_update(
        pre,
        keys,
        screen,
        source_pre,
    )
    &&& !source_pre.scripted() ==> source_post == source_pre
}

/// Computes [`radius_on`].
pub fn dish_radius_on(screen: Vec2) -> (r: i64)
    ensures
        r == radius_on(screen),
{
    if screen.x <= screen.y {
        half(screen.x)
    } else {
        half(screen.y)
    }
}

impl Dish {
    /// The trace buffer is within its capacity.
    pub open spec fn wf(&self) -> bool {
        self.traces.wf()
    }

    /// An empty dish in still air on a screen of the given size. Until the
    /// first update the center lies on the diagonal, at the dish's radius
    /// from both edges.
    pub fn new(screen: Vec2) -> (dish: Dish)
        ensures
            dish.wf(),
            dish@ == (DishModel {
                dish_radius: radius_on(screen),
                bots: Seq::empty(),
                wind: Vec2 { x: 0, y: 0 },
                center: Vec2 { x: radius_on(screen), y: radius_on(screen) },
                traces: Seq::empty(),
                bot_lines: false,
            }),
    {
        let bots: Vec<Bot> = Vec::new();
        let dish_radius: i64 = dish_radius_on(screen);
        let center: Vec2 = Vec2::new(dish_radius, dish_radius);
        let weather: Vec2 = Vec2::new(0, 0);
        let traces: TraceBuffer = TraceBuffer::new();
        Dish { bots, dish_radius, center, wind: weather, traces, bot_lines: false }
    }

    /// Sets the wind of the frame.
    pub fn wind(&mut self, wind: Vec2)
        ensures
            final(self)@ == (DishModel { wind, ..old(self)@ }),
            final(self).wf() == old(self).wf(),
    {
        self.wind = wind;
    }

    /// Looks at the keys: tells whether the program is to end, and turns
    /// the bots' lines on or off otherwise.
    pub fn check_keys(&mut self, keys: Keys) -> (exit: bool)
        ensures
            exit == keys.escape,
            final(self).wf() == old(self).wf(),
            keys.escape ==> final(self)@ == old(self)@,
            !keys.escape ==> final(self)@ == (DishModel {
                bot_lines: old(self)@.bot_lines != keys.space,
                ..old(self)@
            }),
    {
        if keys.escape {
            return true;
        }
        if keys.space {
            self.bot_lines = !self.bot_lines;
        }
        false
    }

    /// Records the wind at a point drawn from the screen, and ages every
    /// trace. The screen has a width and a height to draw the point from.
    pub fn update_traces(&mut self, screen: Vec2, source: &mut RandomSource)
        requires
            old(self).wf(),
            old(source)@.wf(),
            screen.x > 0,
            screen.y > 0,
        ensures
            final(self).wf(),
            final(source)@.wf(),
            final(source)@ == old(source)@.skip(2),
            final(self)@ == (DishModel { traces: final(self)@.traces, ..old(self)@ }),
            exists|origin: Vec2| #[trigger]
                origin.floors_to_origin(screen) && final(self)@.traces == traced(
                    old(self)@.traces,
                    origin,
                    old(self)@.wind,
                ),
            old(source)@.scripted() ==> final(self)@.traces == traced(
                old(self)@.traces,
                foretold_origin(old(source)@, screen),
                old(self)@.wind,
            ),
    {
        self.traces.record(source, screen, self.wind);
        self.traces.age_all();
    }

    /// One step of the simulation on a screen of the given size, unless the
    /// keys end the program: then nothing is changed and `true` is returned.
    /// The step looks at the keys, fits the dish to the screen, takes the
    /// bots through one generation and then records and ages the traces.
    pub fn update(&mut self, keys: Keys, screen: Vec2, source: &mut RandomSource) -> (exit: bool)
        requires
            old(self).wf(),
            old(source)@.wf(),
            screen.x > 0,
            screen.y > 0,
        ensures
            final(self).wf(),
            final(source)@.wf(),
            exit == keys.escape,
            keys.escape ==> final(self)@ == old(self)@ && final(source)@ == old(source)@,
            !keys.escape ==> updated(
                old(self)@,
                final(self)@,
                keys,
                screen,
                old(source)@,
                final(source)@,
            ),
    {
        if self.check_keys(keys) {
            return true;
        }
        self.center = Vec2::new(half(screen.x), half(screen.y));
        self.dish_radius = dish_radius_on(screen);

        let ghost source_pre = source@;
        self.update_bots(screen, source);
        proof {
            lemma_skip_keeps_script(source@, 2);
            crate::population::lemma_foretold_evolution_keeps_script(
                old(self)@.bots,
                screen,
                center_of(screen),
                source_pre,
            );
        }
        self.update_traces(screen, source);
        false
    }

    /// One frame: the wind is set, the simulation makes one step, or two
    /// while the key for double rate is held, and the dish is drawn once.
    /// Nothing is drawn where the keys end the program.
    pub fn frame(
        &mut self,
        wind: Vec2,
        keys: Keys,
        screen: Vec2,
        source: &mut RandomSource,
    ) -> (shapes: Option<Vec<Shape>>)
        requires
            old(self).wf(),
            old(source)@.wf(),
            screen.x > 0,
            screen.y > 0,
        ensures
            final(self).wf(),
            final(source)@.wf(),
            shapes is None <==> keys.escape,
            keys.escape ==> final(self)@ == (DishModel { wind, ..old(self)@ }) && final(source)@
                == old(source)@,
            !keys.escape && !keys.enter ==> updated(
                DishModel { wind, ..old(self)@ },
                final(self)@,
                keys,
                screen,
                old(source)@,
                final(source)@,
            ),
            !keys.escape && keys.enter ==> exists|mid: DishModel, source_mid: SourceModel|
                updated(
                    DishModel { wind, ..old(self)@ },
                    mid,
                    keys,
                    screen,
                    old(source)@,
                    source_mid,
                ) && #[trigger] updated(
                    mid,
                    final(self)@,
                    keys,
                    screen,
                    source_mid,
                    final(source)@,
                ),
            shapes matches Some(s) ==> s@ == drawn(final(self)@),
    {
        self.wind(wind);
        if self.update(keys, screen, source) {
            return None;
        }
        if keys.enter {
            let ghost mid = self@;
            let ghost source_mid = source@;
            self.update(keys, screen, source);
            assert(updated(mid, self@, keys, screen, source_mid, source@));
        }
        Some(self.draw())
    }
}

} // verus!
