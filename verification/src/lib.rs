//! Rules engine for a two-player backgammon variant: board representation,
//! legal-move checking and enumeration, move execution (hitting and bearing
//! off included), dice bookkeeping for a turn, and win detection.
//!
//! Dice-value generation and all presentation are the caller's business: the
//! engine accepts two already-rolled face values and decides the turn-level
//! consequences.

pub mod board;
pub mod color;
pub mod game;
pub mod laws;
