//! Rules engine for Fourmation, a two-player connect-four-style game on a
//! 7x7 grid. Players alternately place stones; after the first move, each
//! placement must border the opponent's previous stone (or, when that stone
//! is fully surrounded, any of the mover's own stones). The game ends when a
//! player lines up four stones in any of the eight directions, or when the
//! next player has no legal placement left.

pub mod board;
pub mod game;
pub mod grid;
pub mod laws;

pub use board::Board;
pub use board::Position;
pub use game::Action;
pub use game::Player;
pub use game::State;
pub use game::StepError;
