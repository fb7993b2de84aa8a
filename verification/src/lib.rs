//! A verified breadth-first "God's algorithm" table builder for puzzles
//! modeled as semigroup actions: starting from one pattern, the engine
//! enumerates every pattern reachable by a fixed generating set of moves and
//! records the number of moves at which each pattern was first discovered,
//! pruning reorder-redundant move sequences with a canonical-sequence
//! automaton.

pub mod bulk_queue;
pub mod canonical_fsm;
pub mod gods_algorithm_table;
pub mod moves;
pub mod pattern_map;
pub mod puzzle_traits;
pub mod puzzles;
pub mod search_generators;

pub use gods_algorithm_table::{GodsAlgorithmSearch, GodsAlgorithmTable, LayerStats};
pub use moves::{MetricEnum, Move, MoveCount, SearchError};
pub use puzzle_traits::{
    GroupActionPuzzle, HasDefaultPattern, HashablePatternPuzzle, SemiGroupActionPuzzle,
};
