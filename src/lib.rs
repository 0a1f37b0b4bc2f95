//! Replay and verification of a tic-tac-toe game against a seeded
//! pseudo-random opponent.
//!
//! A transcript `seed,move,move,...` is replayed move by move: each human
//! move is followed by a computer move drawn from a linear congruential
//! generator started at the seed. The verifier tells whether the transcript
//! is a legal game that the human wins.

pub mod board;
pub mod decode;
pub mod game;
pub mod laws;
pub mod replay;
pub mod rng;
pub mod transcript;

pub use board::{Board, Cell, Player, get_computer_move};
pub use decode::{parse_move, parse_seed};
pub use game::{Turn, apply_turn, human_move};
pub use replay::{play_round, verify_player_win};
pub use rng::SimpleRNG;
pub use transcript::{GameRound, format_seed_and_moves};
