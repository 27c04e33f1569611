//! A verified Minesweeper game engine.
//!
//! The engine owns a rectangular grid of cells with randomly placed mines,
//! computes adjacency counts, reveals cells with a worklist flood fill,
//! toggles flags under a budget bounded by the mine count, detects victory,
//! and tracks elapsed time anchored to the first interaction. A small
//! leaderboard keeps the best time per difficulty preset.

pub mod cell;
pub mod game;
pub mod grid;
pub mod laws;
pub mod leaderboard;
mod rng;
