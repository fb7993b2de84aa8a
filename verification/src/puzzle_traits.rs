use vstd::prelude::*;
use crate::moves::{Move, MoveCount, SearchError};

verus! {

/// Capability contract abstracting "apply a move's effect to a state",
/// independent of any concrete puzzle. The search engine is written against
/// this interface alone, so it can run over any semigroup action.
///
/// Each capability comes in two parts: a specification function that defines
/// the mathematical meaning, and an executable method whose contract ties it
/// to that meaning. An implementation supplies both; the engine's own
/// guarantees are proved from these contracts, so they hold for every
/// implementation that verifies.
pub trait SemiGroupActionPuzzle: Sized {
    type Pattern;
    type Transformation;

    /// Whether `m` is a move defined by this puzzle.
    spec fn spec_move_valid(self, m: Move) -> bool;

    /// The order of a valid move: how many repetitions give the identity.
    spec fn spec_move_order(self, m: Move) -> u64;

    /// The transformation effected by a valid move.
    spec fn spec_transformation_from_move(self, m: Move) -> Self::Transformation;

    /// Whether two valid moves commute.
    spec fn spec_commutes(self, m1: Move, m2: Move) -> bool;

    /// The partial action: the pattern that applying `t` to `p` produces, or
    /// `None` when `t` is not defined for `p` (partial actions are allowed by
    /// design).
    spec fn spec_apply(self, p: Self::Pattern, t: Self::Transformation) -> Option<Self::Pattern>;

    /// Setup-time query: the order of a move, or an error for a move that is
    /// not defined for this puzzle.
    fn move_order(&self, m: &Move) -> (r: Result<MoveCount, SearchError>)
        ensures
            r is Ok <==> self.spec_move_valid(*m),
            r matches Ok(c) ==> c.0 == self.spec_move_order(*m),
    ;

    /// Setup-time query: the transformation a move effects, or an error for a
    /// move that is not defined for this puzzle.
    fn puzzle_transformation_from_move(&self, m: &Move) -> (r: Result<Self::Transformation, SearchError>)
        ensures
            r is Ok <==> self.spec_move_valid(*m),
            r matches Ok(t) ==> t == self.spec_transformation_from_move(*m),
    ;

    /// Setup-time query: whether two moves commute, or an error when either
    /// move is not defined for this puzzle.
    fn do_moves_commute(&self, m1: &Move, m2: &Move) -> (r: Result<bool, SearchError>)
        ensures
            r is Ok <==> self.spec_move_valid(*m1) && self.spec_move_valid(*m2),
            r matches Ok(b) ==> b == self.spec_commutes(*m1, *m2),
    ;

    /// Apply `transformation_to_apply` to `pattern`, allocating the result.
    fn pattern_apply_transformation(
        &self,
        pattern: &Self::Pattern,
        transformation_to_apply: &Self::Transformation,
    ) -> (r: Option<Self::Pattern>)
        ensures
            r == self.spec_apply(*pattern, *transformation_to_apply),
    ;

    /// Apply `transformation_to_apply` to `pattern`, writing the result into
    /// a caller-owned, reusable buffer; returns whether the transformation
    /// applied. When it returns `false`, `into_pattern` may be left in an
    /// unspecified ("mangled") but structurally valid state. The contract
    /// pins the outcome to `pattern` and `transformation_to_apply` alone, so
    /// reusing a previously mangled buffer as the destination can never
    /// change a later result compared to a fresh buffer.
    fn pattern_apply_transformation_into(
        &self,
        pattern: &Self::Pattern,
        transformation_to_apply: &Self::Transformation,
        into_pattern: &mut Self::Pattern,
    ) -> (applied: bool)
        ensures
            applied == self.spec_apply(*pattern, *transformation_to_apply) is Some,
            applied ==> Some(*final(into_pattern)) == self.spec_apply(*pattern, *transformation_to_apply),
    ;

    /// Structural equality of patterns, total over all patterns; the visited
    /// map of the search relies on it.
    fn pattern_eq(&self, a: &Self::Pattern, b: &Self::Pattern) -> (r: bool)
        ensures
            r == (a == b),
    ;

    /// An exact copy of a pattern.
    fn pattern_clone(&self, pattern: &Self::Pattern) -> (r: Self::Pattern)
        ensures
            r == *pattern,
    ;
}

/// A puzzle whose transformations can be inverted and whose full move set
/// can be enumerated.
pub trait GroupActionPuzzle: SemiGroupActionPuzzle {
    /// The inverse of a transformation.
    spec fn spec_invert(self, t: Self::Transformation) -> Self::Transformation;

    /// Every move the puzzle defines: the returned list holds exactly the
    /// valid moves, no more and no fewer.
    fn puzzle_definition_all_moves(&self) -> (moves: Vec<Move>)
        ensures
            forall|i: int| 0 <= i < moves@.len() ==> self.spec_move_valid(#[trigger] moves@[i]),
            forall|m: Move| #[trigger] self.spec_move_valid(m) ==> moves@.contains(m),
    ;

    /// Compute the inverse of a transformation. The search engine caches
    /// these once per generator: expansion applies the *inverse* of each
    /// generator's recorded transformation (patterns are produced by undoing
    /// the generator's effect), so a generating set that is not closed under
    /// inversion yields the orbit of the inverses.
    fn transformation_invert(&self, t: &Self::Transformation) -> (r: Self::Transformation)
        ensures
            r == self.spec_invert(*t),
    ;
}

/// A puzzle with a distinguished default pattern, used as the start pattern
/// of a search when the caller does not override it.
pub trait HasDefaultPattern: SemiGroupActionPuzzle {
    /// The default pattern.
    spec fn spec_default_pattern(self) -> Self::Pattern;

    fn puzzle_default_pattern(&self) -> (r: Self::Pattern)
        ensures
            r == self.spec_default_pattern(),
    ;
}

/// A puzzle whose patterns can be hashed to 64 bits. The contract ties the
/// hash to a specification function of the pattern alone, so equal patterns
/// always hash alike.
pub trait HashablePatternPuzzle: SemiGroupActionPuzzle {
    /// The hash of a pattern.
    spec fn spec_pattern_hash_u64(self, p: Self::Pattern) -> u64;

    fn pattern_hash_u64(&self, pattern: &Self::Pattern) -> (r: u64)
        ensures
            r == self.spec_pattern_hash_u64(*pattern),
    ;
}

} // verus!
