//! A verified simulation engine for Conway's Game of Life.
//!
//! The engine owns a finite, non-toroidal grid of boolean cells and offers
//! the operations a presentation layer needs: toggle one cell, randomize,
//! reset, resize, advance one generation, and read a snapshot. Every
//! operation is specified against the mathematical grid model in [`grid`],
//! and [`laws`] proves the classic behaviours (still lifes, the blinker,
//! border isolation) from those contracts.

pub mod engine;
pub mod grid;
pub mod laws;

pub use engine::GridEngine;
pub use engine::Snapshot;
