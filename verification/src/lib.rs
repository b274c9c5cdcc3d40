//! A cellular-automaton cave generator: a fixed-size 2D grid of boolean
//! cells evolved by a Game-of-Life-like rule with asymmetric thresholds.
//! The grid can be initialized or reset to a random configuration and
//! advanced one synchronous step at a time; rendering and input handling
//! are left to the host.

pub mod grid;
