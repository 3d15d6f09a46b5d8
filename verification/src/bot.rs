//! The bots of the dish: how one is born, how it mutates and how it moves.

use vstd::prelude::*;
use crate::fixed::{clamp, clamped, fx_mul, product, sat, sat_add, sat_sub, UNIT};
use crate::random::{RandomSource, SourceModel};
use crate::shape::{Circle, Color, Line, LINE_WIDTH};
use crate::vec2::Vec2;

verus! {

/// A colour channel changes by less than this at a mutation: `0.02`.
pub const COLOR_NOISE: i64 = 20_000;

/// A velocity component changes by at most this at a mutation: `1.0`.
pub const VELOCITY_NOISE: i64 = 1_000_000;

/// The radius changes by at most this at a mutation, before it is bounded:
/// `1.0`.
pub const RADIUS_NOISE: i64 = 1_000_000;

/// The least radius of a mutated bot: `2.5`.
pub const MIN_RADIUS: i64 = 2_500_000;

/// The greatest radius of a mutated bot: `15.0`.
pub const MAX_RADIUS: i64 = 15_000_000;

/// The radius of the first bot: `5.0`.
pub const SEED_RADIUS: i64 = 5_000_000;

/// The wind component at which the wind moves nothing: `0.5`.
pub const WIND_BIAS: i64 = 500_000;

/// The factor of the wind's push: `10.0`.
pub const WIND_GAIN: i64 = 10_000_000;

/// A circular entity of the dish.
#[derive(Clone, Copy, Debug, PartialEq, Eq, Structural)]
pub struct Bot {
    pub radius: i64,
    pub color: Color,
    pub pos: Vec2,
    pub vel: Vec2,
}

/// The six random perturbations of one mutation.
#[derive(Clone, Copy, Debug, PartialEq, Eq, Structural)]
pub struct Noise {
    pub r: i64,
    pub g: i64,
    pub b: i64,
    pub vx: i64,
    pub vy: i64,
    pub radius: i64,
}

/// What the wind component `w` adds to a coordinate: `10 * (0.5 - w)`.
pub open spec fn wind_push(w: i64) -> i64 {
    sat(product(WIND_GAIN as int, sat(WIND_BIAS - w))) as i64
}

/// Computes [`wind_push`].
pub fn push_of(w: i64) -> (p: i64)
    ensures
        p == wind_push(w),
{
    fx_mul(WIND_GAIN, sat_sub(WIND_BIAS, w))
}

impl Noise {
    /// Whether each perturbation lies in the range it is drawn from.
    pub open spec fn in_range(self) -> bool {
        &&& -COLOR_NOISE <= self.r < COLOR_NOISE
        &&& -COLOR_NOISE <= self.g < COLOR_NOISE
        &&& -COLOR_NOISE <= self.b < COLOR_NOISE
        &&& -VELOCITY_NOISE <= self.vx < VELOCITY_NOISE
        &&& -VELOCITY_NOISE <= self.vy < VELOCITY_NOISE
        &&& -RADIUS_NOISE <= self.radius < RADIUS_NOISE
    }

    /// The noise that a scripted source gives: red, green, blue, the two
    /// velocity components and the radius, in this order.
    pub open spec fn foretold(source: SourceModel) -> Noise {
        Noise {
            r: source.pick(-COLOR_NOISE as int, COLOR_NOISE as int) as i64,
            g: source.skip(1).pick(-COLOR_NOISE as int, COLOR_NOISE as int) as i64,
            b: source.skip(2).pick(-COLOR_NOISE as int, COLOR_NOISE as int) as i64,
            vx: source.skip(3).pick(-VELOCITY_NOISE as int, VELOCITY_NOISE as int) as i64,
            vy: source.skip(4).pick(-VELOCITY_NOISE as int, VELOCITY_NOISE as int) as i64,
            radius: source.skip(5).pick(-RADIUS_NOISE as int, RADIUS_NOISE as int) as i64,
        }
    }

    /// Draws the noise of one mutation: six draws.
    pub fn draw(source: &mut RandomSource) -> (noise: Noise)
        requires
            old(source)@.wf(),
        ensures
            final(source)@.wf(),
            final(source)@ == old(source)@.skip(6),
            noise.in_range(),
            old(source)@.scripted() ==> noise == Noise::foretold(old(source)@),
    {
        proof {
            reveal_with_fuel(SourceModel::skip, 7);
        }
        let r: i64 = source.range(-COLOR_NOISE, COLOR_NOISE);
        let g: i64 = source.range(-COLOR_NOISE, COLOR_NOISE);
        let b: i64 = source.range(-COLOR_NOISE, COLOR_NOISE);
        let vx: i64 = source.range(-VELOCITY_NOISE, VELOCITY_NOISE);
        let vy: i64 = source.range(-VELOCITY_NOISE, VELOCITY_NOISE);
        let radius: i64 = source.range(-RADIUS_NOISE, RADIUS_NOISE);
        Noise { r, g, b, vx, vy, radius }
    }
}

impl Bot {
    /// The first bot of a dish: at rest at `center`, gray, of radius `5.0`.
    pub open spec fn seed(center: Vec2) -> Bot {
        Bot { radius: SEED_RADIUS, color: Color::gray(), pos: center, vel: Vec2 { x: 0, y: 0 } }
    }

    /// The child of `self` under `noise`: each colour channel and the radius
    /// perturbed and then bounded, the velocity perturbed, the position and
    /// the opacity kept.
    pub open spec fn mutated(self, noise: Noise) -> Bot {
        Bot {
            radius: clamped(
                sat(self.radius + noise.radius),
                MIN_RADIUS as int,
                MAX_RADIUS as int,
            ) as i64,
            color: Color {
                r: clamped(sat(self.color.r + noise.r), 0, UNIT as int) as i64,
                g: clamped(sat(self.color.g + noise.g), 0, UNIT as int) as i64,
                b: clamped(sat(self.color.b + noise.b), 0, UNIT as int) as i64,
                a: self.color.a,
            },
            pos: self.pos,
            vel: Vec2 {
                x: sat(self.vel.x + noise.vx) as i64,
                y: sat(self.vel.y + noise.vy) as i64,
            },
        }
    }

    /// Whether the colour and the radius lie in the ranges that a mutation
    /// keeps them in.
    pub open spec fn in_range(self) -> bool {
        self.color.in_range() && MIN_RADIUS <= self.radius <= MAX_RADIUS
    }

    /// Whether `self` can be a child of `parent`: the position and the
    /// opacity are the parent's, the colour and the radius are in range, and
    /// each velocity component is within `1.0` of the parent's.
    pub open spec fn child_of(self, parent: Bot) -> bool {
        &&& self.pos == parent.pos
        &&& self.color.a == parent.color.a
        &&& self.in_range()
        &&& -VELOCITY_NOISE <= self.vel.x - parent.vel.x <= VELOCITY_NOISE
        &&& -VELOCITY_NOISE <= self.vel.y - parent.vel.y <= VELOCITY_NOISE
    }

    /// The bot one generation later: moved by its velocity, and then on both
    /// axes by what the wind's x component adds.
    pub open spec fn moved(self, wind: Vec2) -> Bot {
        Bot {
            pos: self.pos.added(self.vel).added(
                Vec2 { x: wind_push(wind.x), y: wind_push(wind.x) },
            ),
            ..self
        }
    }

    /// The point that the bot's line is drawn to: the position, plus the
    /// velocity, plus on each axis what the wind's component on that axis
    /// adds.
    pub open spec fn heading(self, wind: Vec2) -> Vec2 {
        self.pos.added(self.vel).added(Vec2 { x: wind_push(wind.x), y: wind_push(wind.y) })
    }

    /// The bot's disc.
    pub open spec fn disc(self) -> Circle {
        Circle { center: self.pos, radius: self.radius, color: self.color }
    }

    /// The bot's line: from its position to where it is heading.
    pub open spec fn pointer(self, wind: Vec2) -> Line {
        Line { from: self.pos, to: self.heading(wind), width: LINE_WIDTH, color: Color::violet() }
    }

    /// Makes the first bot of a dish.
    pub fn new_seed(center: Vec2) -> (bot: Bot)
        ensures
            bot == Bot::seed(center),
    {
        Bot {
            radius: SEED_RADIUS,
            color: Color { r: 500_000, g: 500_000, b: 500_000, a: UNIT },
            pos: center,
            vel: Vec2 { x: 0, y: 0 },
        }
    }

    /// The child of `self` under a given noise.
    pub fn mutate_with(&self, noise: &Noise) -> (child: Bot)
        ensures
            child == self.mutated(*noise),
    {
        Bot {
            radius: clamp(sat_add(self.radius, noise.radius), MIN_RADIUS, MAX_RADIUS),
            color: Color {
                r: clamp(sat_add(self.color.r, noise.r), 0, UNIT),
                g: clamp(sat_add(self.color.g, noise.g), 0, UNIT),
                b: clamp(sat_add(self.color.b, noise.b), 0, UNIT),
                a: self.color.a,
            },
            pos: self.pos,
            vel: Vec2 { x: sat_add(self.vel.x, noise.vx), y: sat_add(self.vel.y, noise.vy) },
        }
    }

    /// A child of `self` under noise drawn from `source`. The receiver is
    /// left as it is.
    pub fn mutate(&self, source: &mut RandomSource) -> (child: Bot)
        requires
            old(source)@.wf(),
        ensures
            final(source)@.wf(),
            final(source)@ == old(source)@.skip(6),
            exists|noise: Noise| noise.in_range() && child == #[trigger] self.mutated(noise),
            child.child_of(*self),
            old(source)@.scripted() ==> child == self.mutated(Noise::foretold(old(source)@)),
    {
        let noise: Noise = Noise::draw(source);
        proof {
            lemma_mutated_is_child(*self, noise);
        }
        self.mutate_with(&noise)
    }

    /// Moves the bot by one generation.
    pub fn advance(&mut self, wind: Vec2)
        ensures
            *final(self) == old(self).moved(wind),
    {
        let push: i64 = push_of(wind.x);
        self.pos = self.pos.plus(self.vel).plus(Vec2 { x: push, y: push });
    }

    /// The disc that shows the bot.
    pub fn circle(&self) -> (c: Circle)
        ensures
            c == self.disc(),
    {
        Circle { center: self.pos, radius: self.radius, color: self.color }
    }

    /// The line that shows where the bot is heading.
    pub fn line(&self, wind: Vec2) -> (l: Line)
        ensures
            l == self.pointer(wind),
    {
        let to: Vec2 = self.pos.plus(self.vel).plus(
            Vec2 { x: push_of(wind.x), y: push_of(wind.y) },
        );
        Line {
            from: self.pos,
            to,
            width: LINE_WIDTH,
            color: Color { r: 607_843, g: 0, b: UNIT, a: UNIT },
        }
    }
}

/// Whatever the noise, a mutation keeps each colour channel in `[0, 1]` and
/// the radius in `[2.5, 15.0]`, and hands the parent's position and opacity
/// on unchanged; under noise of at most `1.0` each velocity component stays
/// within `1.0` of the parent's.
pub proof fn lemma_mutated_is_child(parent: Bot, noise: Noise)
    ensures
        parent.mutated(noise).in_range(),
        parent.mutated(noise).pos == parent.pos,
        parent.mutated(noise).color.a == parent.color.a,
        -VELOCITY_NOISE <= noise.vx <= VELOCITY_NOISE ==> -VELOCITY_NOISE <= parent.mutated(
            noise,
        ).vel.x - parent.vel.x <= VELOCITY_NOISE,
        -VELOCITY_NOISE <= noise.vy <= VELOCITY_NOISE ==> -VELOCITY_NOISE <= parent.mutated(
            noise,
        ).vel.y - parent.vel.y <= VELOCITY_NOISE,
        noise.in_range() ==> parent.mutated(noise).child_of(parent),
{
}

/// In a wind whose x component is `0.5` the first bot of a dish stays
/// where it was put, at the center.
pub proof fn lemma_seed_rests_in_balanced_wind(center: Vec2, wind: Vec2)
    requires
        wind.x == WIND_BIAS,
    ensures
        Bot::seed(center).moved(wind).pos == center,
        Bot::seed(center).moved(wind) == Bot::seed(center),
{
    assert(product(WIND_GAIN as int, 0) == 0) by (nonlinear_arith)
        requires
            WIND_GAIN == 10_000_000,
            UNIT == 1_000_000,
    ;
}

/// Away from the ends of `i64` the wind moves a bot by ten times what its x
/// component falls short of `0.5`, on both axes, after the bot's own
/// velocity.
pub proof fn lemma_moved_far_from_saturation(bot: Bot, wind: Vec2)
    requires
        -4_000_000_000_000_000 <= bot.pos.x <= 4_000_000_000_000_000,
        -4_000_000_000_000_000 <= bot.pos.y <= 4_000_000_000_000_000,
        -4_000_000_000_000_000 <= bot.vel.x <= 4_000_000_000_000_000,
        -4_000_000_000_000_000 <= bot.vel.y <= 4_000_000_000_000_000,
        -4_000_000_000_000_000 <= wind.x <= 4_000_000_000_000_000,
    ensures
        bot.moved(wind).pos.x == bot.pos.x + bot.vel.x + 10 * (WIND_BIAS - wind.x),
        bot.moved(wind).pos.y == bot.pos.y + bot.vel.y + 10 * (WIND_BIAS - wind.x),
{
    let d = WIND_BIAS - wind.x;
    assert(product(WIND_GAIN as int, d) == 10 * d) by (nonlinear_arith)
        requires
            WIND_GAIN == 10_000_000,
            UNIT == 1_000_000,
    ;
}

} // verus!
