//! A dish of drifting, mutating bots under a turning wind.
//!
//! The library holds the rules of the simulation: how a bot mutates, which
//! bots leave the dish, how the population grows, how the wind's traces are
//! kept and aged, and what a frame draws. All numbers are fixed-point (see
//! [`fixed`]); reading the clock, the keys and the screen, and putting shapes
//! on it, is left to the program around the library.

pub mod bot;
pub mod chance;
pub mod dish;
pub mod fixed;
pub mod population;
pub mod random;
pub mod render;
pub mod shape;
pub mod trace;
pub mod vec2;
