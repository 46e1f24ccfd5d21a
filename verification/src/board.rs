//! Shared configuration and result types for both game variants.

use vstd::prelude::*;

verus! {

/// Two-level difficulty setting; each game variant maps it to a search depth.
#[derive(Clone, Copy, PartialEq, Eq, Structural, Debug)]
pub enum Difficulty {
    Easy,
    Hard,
}

/// Board size selector; each game variant has two fixed presets.
#[derive(Clone, Copy, PartialEq, Eq, Structural, Debug)]
pub enum BoardSize {
    Standard,
    Large,
}

/// Outcome of a position. `Win` carries the winning symbol. `Tie` is the
/// dual-token outcome in which both symbols complete a winning pattern at
/// once; it is deliberately not a win for either symbol.
#[derive(Clone, Copy, PartialEq, Eq, Structural, Debug)]
pub enum TerminalResult {
    Ongoing,
    Draw,
    Win(char),
    Tie,
}

/// Why a proposed move was rejected; a rejected move never mutates the board.
#[derive(Clone, Copy, PartialEq, Eq, Structural, Debug)]
pub enum MoveError {
    InvalidColumn,
    ColumnFull,
    InvalidSymbol,
}

} // verus!
