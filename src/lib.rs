//! The rule engine of a falling-block puzzle game on a 10 by 20 board: the
//! seven piece kinds and their turns, collisions, wall kicks, locking, line
//! clears and scoring, spawning and the end of the game, and the timing of
//! the player's input. Drawing, the window, the keyboard, the clock and the
//! random source stay with the caller.

pub mod board;
pub mod collision;
pub mod controls;
pub mod game;
pub mod piece;
