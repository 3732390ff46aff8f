//! A verified Connect Four core: board state machine, win detection
//! (full scan and incremental), and a depth-limited minimax player.

pub mod board;
pub mod builder;
pub mod error;
pub mod evaluation;
pub mod game;
pub mod laws;
pub mod minimax;
pub mod player;
pub mod random;

pub use crate::board::{Board, GameResult, Team};
pub use crate::builder::GameBuilder;
pub use crate::error::Error;
pub use crate::evaluation::PlayerPlusEvaluator;
pub use crate::game::Game;
pub use crate::minimax::MinimaxPlayer;
pub use crate::player::Player;
pub use crate::random::RandomPlayer;
