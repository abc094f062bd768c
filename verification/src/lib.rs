//! Poker toolkit library: cards, hand evaluation, ranges, board texture,
//! canonical flop enumeration and the decision helpers built on them.

pub mod text;
pub mod error;
pub mod cards;
pub mod hand_evaluator;
pub mod game_tree;
pub mod flat_cfr;
pub mod flop_solver;
pub mod ranges;
pub mod flop_enumerator;
pub mod preflop_solver;
pub mod strategy;
pub mod batch;
pub mod postflop;
pub mod math_engine;
pub mod multiway;
pub mod preflop;
pub mod play;
pub mod display;
pub mod equity;
pub mod cli;
pub mod session;
