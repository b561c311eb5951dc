//! The rules of a sliding-tile puzzle on a board of four by four cells.
//!
//! A move pushes all tiles in one direction; two equal tiles that meet become
//! one tile of twice the value, which earns that value in points; after every
//! move that changed the board a new tile appears in an empty cell. The game
//! is lost when no move changes the board.
//!
//! - [`board`] defines what the moves are, as mathematics.
//! - [`grid`] holds the game and plays the moves, proved against [`board`].
//! - [`model`] takes in the player's keys and touches.
//! - [`laws`] and [`lines`] state and prove what holds of every board and of
//!   every line; [`pass`] holds what the loops of [`grid`] keep.
//! - [`random`] draws the new tiles with the `rand` crate.

pub mod board;
pub mod grid;
pub mod laws;
pub mod lines;
pub mod model;
pub mod pass;
pub mod random;

pub use board::Move;
pub use grid::{GameStatus, Grid};
pub use model::{Model, Msg};
