//! `c4e5chess`: the decision logic of a UCI chess engine, verified with Verus.
//!
//! The chess rules themselves (board representation, FEN parsing, move
//! generation) come from the `cozy_chess` crate; this library holds the
//! engine's own logic around them: time management, the iterative deepening
//! controller, the UCI command interpreter and the browser-facing engine API.

pub mod types;
pub mod text;
pub mod chess;
pub mod history;
pub mod time_management;
pub mod game;
pub mod search;
pub mod uci;
pub mod engine;

pub use engine::{greet, ChessEngine};
pub use game::Game;
pub use time_management::TimeManagement;
pub use uci::Cli;
