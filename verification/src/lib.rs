//! Rules engine of a two-grid naval-combat game.
//!
//! The library tracks each side's fleet on a fixed 10x10 grid, validates
//! ship placement (including rotated shapes), resolves incoming shots with
//! sink detection, and drives the turn-alternation state machine that
//! decides the winner.

pub mod game;
