//! The library's error type.

use vstd::prelude::*;

verus! {

/// What went wrong while parsing or evaluating poker input.
#[derive(Debug)]
pub enum GtoError {
    InvalidRank(char),
    InvalidSuit(char),
    InvalidCardNotation(String),
    InvalidBoardNotation(String),
    InvalidHandNotation(String),
    NotEnoughCards { need: usize, got: usize },
    NotEnoughDeck { requested: usize, available: usize },
    InvalidHandSize,
    InvalidValue(String),
    NoValidCombos,
    RangeDataNotFound(String),
}

pub type GtoResult<T> = Result<T, GtoError>;

} // verus!
