//! Gameplay core of a hexagonal bubble shooter: coordinates, the sparse grid,
//! cluster and floating-bubble detection, landing resolution, scoring, level
//! progression, power-ups and the high-score table.

pub mod bubble;
mod chance;
pub mod cluster;
pub mod hex;
pub mod highscore;
pub mod powerups;
pub mod reach;
mod seqs;
pub mod state;
pub mod game;
pub mod grid;
