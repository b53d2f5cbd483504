//! A single-deck patience (Klondike-like) card game driven to completion by a
//! deterministic, non-backtracking greedy strategy.
//!
//! The game state owns all 52 cards, split across 7 tableau stacks, 4
//! foundation stacks and a draw pile. Each solver iteration enumerates the
//! currently legal moves in seven categories, classifies the game as won,
//! lost or unfinished, and executes exactly one move chosen by a fixed
//! priority order plus a local positivity heuristic.

pub mod card;
pub mod game;
pub mod laws;
pub mod moves;
pub mod solver;
pub mod state;
