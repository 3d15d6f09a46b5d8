//! Two-dimensional fixed-point vectors.

use vstd::prelude::*;
use crate::fixed::{fx_mul, product, sat, sat_add, sat_sub};

verus! {

/// A point or a displacement on the screen.
#[derive(Clone, Copy, Debug, PartialEq, Eq, Structural)]
pub struct Vec2 {
    pub x: i64,
    pub y: i64,
}

/// Whether the quotient of `v` by `size` has 0 as its integer part: `v` lies
/// in `[0, size)` for a positive `size`, in `(size, 0]` for a negative one,
/// and nowhere for `size == 0`.
pub open spec fn floors_to_zero(v: int, size: int) -> bool {
    if size > 0 {
        0 <= v < size
    } else if size < 0 {
        size < v <= 0
    } else {
        false
    }
}

impl Vec2 {
    /// The component-wise saturating sum.
    pub open spec fn added(self, other: Vec2) -> Vec2 {
        Vec2 { x: sat(self.x + other.x) as i64, y: sat(self.y + other.y) as i64 }
    }

    /// The component-wise saturating difference.
    pub open spec fn subtracted(self, other: Vec2) -> Vec2 {
        Vec2 { x: sat(self.x - other.x) as i64, y: sat(self.y - other.y) as i64 }
    }

    /// Both components multiplied by the fixed-point number `k`.
    pub open spec fn scaled(self, k: i64) -> Vec2 {
        Vec2 {
            x: sat(product(self.x as int, k as int)) as i64,
            y: sat(product(self.y as int, k as int)) as i64,
        }
    }

    /// Whether the point, divided component-wise by `size`, floors to the
    /// origin: for a screen of positive size, whether it lies in the
    /// rectangle `[0, width) x [0, height)`.
    pub open spec fn floors_to_origin(self, size: Vec2) -> bool {
        floors_to_zero(self.x as int, size.x as int) && floors_to_zero(
            self.y as int,
            size.y as int,
        )
    }

    pub fn new(x: i64, y: i64) -> (v: Vec2)
        ensures
            v == (Vec2 { x, y }),
    {
        Vec2 { x, y }
    }

    pub fn plus(self, other: Vec2) -> (v: Vec2)
        ensures
            v == self.added(other),
    {
        Vec2 { x: sat_add(self.x, other.x), y: sat_add(self.y, other.y) }
    }

    pub fn minus(self, other: Vec2) -> (v: Vec2)
        ensures
            v == self.subtracted(other),
    {
        Vec2 { x: sat_sub(self.x, other.x), y: sat_sub(self.y, other.y) }
    }

    pub fn times(self, k: i64) -> (v: Vec2)
        ensures
            v == self.scaled(k),
    {
        Vec2 { x: fx_mul(self.x, k), y: fx_mul(self.y, k) }
    }

    /// The containment test of the dish.
    pub fn is_inside(self, size: Vec2) -> (inside: bool)
        ensures
            inside == self.floors_to_origin(size),
    {
        let in_x: bool = if size.x > 0 {
            0 <= self.x && self.x < size.x
        } else if size.x < 0 {
            size.x < self.x && self.x <= 0
        } else {
            false
        };
        let in_y: bool = if size.y > 0 {
            0 <= self.y && self.y < size.y
        } else if size.y < 0 {
            size.y < self.y && self.y <= 0
        } else {
            false
        };
        in_x && in_y
    }
}

/// The containment test is the test that the floor of the quotient is zero.
pub proof fn lemma_floors_to_zero_is_floor_of_quotient(v: int, size: int)
    requires
        size > 0,
    ensures
        floors_to_zero(v, size) <==> v / size == 0,
{
    if 0 <= v < size {
        vstd::arithmetic::div_mod::lemma_basic_div(v, size);
    } else {
        vstd::arithmetic::div_mod::lemma_fundamental_div_mod(v, size);
        vstd::arithmetic::div_mod::lemma_mod_bound(v, size);
        if v / size == 0 {
            assert(size * (v / size) == 0);
        }
    }
}

} // verus!
