//! A verified model of Conway's Game of Life on a fixed-size toroidal grid.
//!
//! The library owns the cellular-automaton core: a dense grid of boolean
//! cell states addressed by `(x, y)`, an opaque per-cell handle table for a
//! presentation layer, toroidal neighbor counting, and an atomic
//! generation-step operation.  Rendering, input handling and scheduling are
//! left to the host application; they drive the board only through the
//! public interface defined here.

pub mod board;
pub mod render;
pub mod rules;
