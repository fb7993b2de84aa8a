use vstd::prelude::*;

verus! {

/// One concrete generator move: a `quantum` identifier naming the underlying
/// base move of the puzzle (textual move names are resolved to these
/// identifiers by the puzzle definition, outside this core), together with an
/// `amount` of repetition of that base move.
#[derive(Clone, Copy, PartialEq, Eq, Structural, Debug)]
pub struct Move {
    pub quantum: u32,
    pub amount: i32,
}

/// How many repetitions of a move yield the identity transformation.
#[derive(Clone, Copy, PartialEq, Eq, Structural, Debug)]
pub struct MoveCount(pub u64);

/// Move-counting convention used when building the generator table. Under the
/// quantum metric every named generator move counts as exactly one unit,
/// regardless of how much of the puzzle it touches; other conventions are out
/// of scope for this engine.
#[derive(Clone, Copy, PartialEq, Eq, Structural, Debug)]
pub enum MetricEnum {
    Quantum,
}

/// A setup failure, surfaced to the caller before any search begins.
#[derive(Clone, Copy, PartialEq, Eq, Structural, Debug)]
pub enum SearchError {
    /// A move in the generator list is not defined for the puzzle.
    InvalidMove { mv: Move },
    /// The generators fall into more move classes than the canonical
    /// automaton's state representation can track.
    TooManyMoveClasses,
}

} // verus!
