//! A Minesweeper engine with machine-checked rules.
//!
//! The board places its mines on the first reveal, so that the first cell a
//! player opens is never mined, counts adjacent mines, floods regions without
//! adjacent mines, toggles flags, chords, and detects a win. Every function
//! carries a contract over a mathematical view of the board, and Verus proves
//! that the code keeps it.
//!
//! - [`model`] is the mathematics: the view of a board and the rules of the
//!   game as spec functions.
//! - [`board`] is the executable board. Its functions ensure that the view
//!   moves as the model says.
//! - [`flood`] holds the facts about how a reveal spreads, and [`theorems`]
//!   what holds of every game: first-click safety, exact counts, closure of
//!   the flood, the flag round-trip, when a chord acts, and that a won
//!   board stays won.
//! - [`app`] is a game session: cursor, timer, flag count and status around a
//!   board. [`difficulty`] has the presets, [`input`] the key bindings, and
//!   [`ui`] decides what the screen shows.
//!
//! Two things are taken on trust, each behind a function of a few lines: the
//! shuffle that draws the mines, and the clock that starts the timer.

pub mod app;
pub mod board;
mod clock;
pub mod difficulty;
pub mod error;
pub mod flood;
pub mod input;
pub mod model;
mod shuffle;
pub mod theorems;
pub mod ui;
