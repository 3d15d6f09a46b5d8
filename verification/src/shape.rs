//! What a frame puts on the screen.

use vstd::prelude::*;
use crate::fixed::UNIT;
use crate::vec2::Vec2;

verus! {

/// The width of every line that is drawn: `2.0`.
pub const LINE_WIDTH: i64 = 2_000_000;

/// A colour of four channels, each a fraction of [`UNIT`]: red, green, blue
/// and opacity.
#[derive(Clone, Copy, Debug, PartialEq, Eq, Structural)]
pub struct Color {
    pub r: i64,
    pub g: i64,
    pub b: i64,
    pub a: i64,
}

/// A filled circle.
#[derive(Clone, Copy, Debug, PartialEq, Eq, Structural)]
pub struct Circle {
    pub center: Vec2,
    pub radius: i64,
    pub color: Color,
}

/// A line segment.
#[derive(Clone, Copy, Debug, PartialEq, Eq, Structural)]
pub struct Line {
    pub from: Vec2,
    pub to: Vec2,
    pub width: i64,
    pub color: Color,
}

/// One drawing primitive.
#[derive(Clone, Copy, Debug, PartialEq, Eq, Structural)]
pub enum Shape {
    Circle(Circle),
    Line(Line),
}

impl Color {
    /// Opaque white, the colour of the wind's traces.
    pub open spec fn white() -> Color {
        Color { r: UNIT, g: UNIT, b: UNIT, a: UNIT }
    }

    /// The opaque violet of the lines that show where a bot is heading: the
    /// bytes 155, 0, 255 as fractions of 255.
    pub open spec fn violet() -> Color {
        Color { r: 607_843, g: 0, b: UNIT, a: UNIT }
    }

    /// The opaque neutral gray of the first bot.
    pub open spec fn gray() -> Color {
        Color { r: 500_000, g: 500_000, b: 500_000, a: UNIT }
    }

    /// Whether red, green and blue each lie in `[0, 1]`.
    pub open spec fn in_range(self) -> bool {
        &&& 0 <= self.r <= UNIT
        &&& 0 <= self.g <= UNIT
        &&& 0 <= self.b <= UNIT
    }

    pub fn new(r: i64, g: i64, b: i64, a: i64) -> (c: Color)
        ensures
            c == (Color { r, g, b, a }),
    {
        Color { r, g, b, a }
    }
}

} // verus!
