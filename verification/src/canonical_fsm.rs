use vstd::prelude::*;
use crate::puzzle_traits::SemiGroupActionPuzzle;
use crate::search_generators::SearchGenerators;

verus! {

/// Whether bit `d` of `mask` is set.
pub open spec fn bit_set(mask: u64, d: int) -> bool {
    (mask >> d as u64) & 1u64 == 1u64
}

/// Whether every move of class `c1` commutes with every move of class `c2`,
/// as the puzzle's specification has it.
pub open spec fn spec_classes_commute<P: SemiGroupActionPuzzle>(
    puzzle: P,
    generators: SearchGenerators<P>,
    c1: int,
    c2: int,
) -> bool {
    forall|j1: int, j2: int|
        #![trigger generators.by_move_class@[c1][j1], generators.by_move_class@[c2][j2]]
        0 <= j1 < generators.by_move_class@[c1].len()
            && 0 <= j2 < generators.by_move_class@[c2].len()
            ==> puzzle.spec_commutes(
                generators.flat@[generators.by_move_class@[c1][j1] as int].mv,
                generators.flat@[generators.by_move_class@[c2][j2] as int].mv,
            )
}

proof fn lemma_bit_zero(d: u64)
    requires
        d < 64,
    ensures
        (0u64 >> d) & 1u64 == 0u64,
{
    assert((0u64 >> d) & 1u64 == 0u64) by (bit_vector);
}

proof fn lemma_bit_or_shift(m: u64, c: u64, d: u64)
    requires
        c < 64,
        d < 64,
    ensures
        c == d ==> ((m | (1u64 << c)) >> d) & 1u64 == 1u64,
        c != d ==> ((m | (1u64 << c)) >> d) & 1u64 == (m >> d) & 1u64,
{
    assert(c < 64 && d < 64 && c == d ==> ((m | (1u64 << c)) >> d) & 1u64 == 1u64)
        by (bit_vector);
    assert(c < 64 && d < 64 && c != d ==> ((m | (1u64 << c)) >> d) & 1u64 == (m >> d) & 1u64)
        by (bit_vector);
}

proof fn lemma_bit_or_nonzero(m: u64, c: u64)
    requires
        c < 64,
    ensures
        m | (1u64 << c) != 0,
{
    assert(c < 64 ==> m | (1u64 << c) != 0) by (bit_vector);
}

/// One state of the canonical-sequence automaton: a bitmask recording, for
/// each move class, whether a move of that class was applied recently enough
/// that every move applied since commutes with it. Bit `c` set means class
/// `c` is part of the current commuting tail of the sequence.
pub type CanonicalFSMState = u64;

/// The distinguished start state: the empty move-class sequence.
pub const CANONICAL_FSM_START_STATE: CanonicalFSMState = 0;

/// A deterministic finite state machine over move classes that forbids
/// reordering-redundant move-class sequences: among pairwise commuting move
/// classes, only the ordering by ascending class index is kept; every other
/// ordering of the same multiset of classes reaches the same patterns and is
/// pruned. Repeating a class is never pruned, since a generating set need not
/// contain every power of a generator.
pub struct CanonicalFSM {
    /// `commute_mask[c]`: the classes whose moves all commute with every
    /// move of class `c`.
    pub commute_mask: Vec<u64>,
    /// `forbid_mask[c]`: the classes with index strictly greater than `c`
    /// that commute with `c`; a class `c` move directly after any of them
    /// would be reorder-equivalent to the ascending ordering already
    /// explored.
    pub forbid_mask: Vec<u64>,
}

impl CanonicalFSM {
    /// The number of move classes this automaton ranges over.
    pub open spec fn spec_num_classes(self) -> nat {
        self.commute_mask@.len()
    }

    pub open spec fn wf(self) -> bool {
        &&& self.commute_mask@.len() == self.forbid_mask@.len()
        &&& self.commute_mask@.len() <= 64
    }

    /// The transition function, as a mathematical function: `None` when the
    /// class is pruned at this state, otherwise the successor state. The
    /// same `(state, move_class_index)` pair always yields the same outcome.
    pub open spec fn spec_next_state(
        self,
        state: CanonicalFSMState,
        move_class_index: int,
    ) -> Option<CanonicalFSMState> {
        if state & self.forbid_mask@[move_class_index] != 0 {
            None
        } else {
            Some((state & self.commute_mask@[move_class_index]) | (1u64 << move_class_index as u64))
        }
    }

    /// Whether this automaton never prunes anything; true of the automaton
    /// built by [`CanonicalFSM::unrestricted`].
    pub open spec fn prunes_nothing(self) -> bool {
        forall|c: int| 0 <= c < self.forbid_mask@.len() ==> self.forbid_mask@[c] == 0
    }

    /// An automaton that prunes nothing allows every class at every state.
    pub proof fn lemma_prunes_nothing(self, state: CanonicalFSMState, move_class_index: int)
        requires
            self.wf(),
            self.prunes_nothing(),
            0 <= move_class_index < self.spec_num_classes(),
        ensures
            self.spec_next_state(state, move_class_index) is Some,
    {
        assert(state & 0u64 == 0u64) by (bit_vector);
    }

    /// A well-formed automaton tracks at most 64 move classes: one bit of
    /// state per class.
    pub proof fn lemma_num_classes_bound(self)
        requires
            self.wf(),
        ensures
            self.spec_num_classes() <= 64,
    {
    }

    pub fn num_classes(&self) -> (n: usize)
        ensures
            n == self.spec_num_classes(),
    {
        self.commute_mask.len()
    }

    /// Advance the automaton by one move class: `None` signals that every
    /// move of this class is redundant at this point in the sequence and
    /// must be skipped; otherwise the deterministic successor state.
    pub fn next_state(
        &self,
        current_fsm_state: CanonicalFSMState,
        move_class_index: usize,
    ) -> (r: Option<CanonicalFSMState>)
        requires
            self.wf(),
            move_class_index < self.spec_num_classes(),
        ensures
            r == self.spec_next_state(current_fsm_state, move_class_index as int),
    {
        if current_fsm_state & self.forbid_mask[move_class_index] != 0 {
            None
        } else {
            Some(
                (current_fsm_state & self.commute_mask[move_class_index])
                    | (1u64 << move_class_index as u64),
            )
        }
    }

    /// Build the automaton for the move classes of `generators`: two classes
    /// are recorded as commuting when every move of one commutes with every
    /// move of the other, as the puzzle reports it.
    #[verifier::loop_isolation(false)]
    pub fn new<P: SemiGroupActionPuzzle>(
        puzzle: &P,
        generators: &SearchGenerators<P>,
    ) -> (r: Self)
        requires
            generators.wf(*puzzle),
            generators.by_move_class@.len() <= 64,
        ensures
            r.wf(),
            r.spec_num_classes() == generators.by_move_class@.len(),
            forall|c: int, d: int|
                0 <= c < generators.by_move_class@.len() && 0 <= d < 64
                ==> (#[trigger] bit_set(r.commute_mask@[c], d) <==> (d
                    < generators.by_move_class@.len()
                    && spec_classes_commute(*puzzle, *generators, c, d))),
            forall|c: int, d: int|
                0 <= c < generators.by_move_class@.len() && 0 <= d < 64
                ==> (#[trigger] bit_set(r.forbid_mask@[c], d) <==> (c < d
                    < generators.by_move_class@.len()
                    && spec_classes_commute(*puzzle, *generators, c, d))),
            forall|c: int|
                0 <= c < generators.by_move_class@.len()
                ==> ((#[trigger] r.forbid_mask@[c]) == 0 <==> (forall|d: int|
                    c < d < generators.by_move_class@.len()
                    ==> !(#[trigger] spec_classes_commute(*puzzle, *generators, c, d)))),
    {
        let num_classes = generators.by_move_class.len();
        let mut commute_mask: Vec<u64> = Vec::new();
        let mut forbid_mask: Vec<u64> = Vec::new();
        let mut c1: usize = 0;
        while c1 < num_classes
            invariant
                commute_mask@.len() == c1,
                forbid_mask@.len() == c1,
                c1 <= num_classes,
                forall|c: int, d: int|
                    0 <= c < c1 && 0 <= d < 64
                    ==> (#[trigger] bit_set(commute_mask@[c], d) <==> (d < num_classes
                        && spec_classes_commute(*puzzle, *generators, c, d))),
                forall|c: int, d: int|
                    0 <= c < c1 && 0 <= d < 64
                    ==> (#[trigger] bit_set(forbid_mask@[c], d) <==> (c < d < num_classes
                        && spec_classes_commute(*puzzle, *generators, c, d))),
                forall|c: int|
                    0 <= c < c1
                    ==> ((#[trigger] forbid_mask@[c]) == 0 <==> (forall|d: int|
                        c < d < num_classes
                        ==> !(#[trigger] spec_classes_commute(*puzzle, *generators, c, d)))),
            decreases num_classes - c1,
        {
            let mut commute: u64 = 0;
            let mut forbid: u64 = 0;
            proof {
                assert forall|d: int| 0 <= d < 64 implies !bit_set(commute, d)
                    && !bit_set(forbid, d) by {
                    lemma_bit_zero(d as u64);
                }
            }
            let mut c2: usize = 0;
            while c2 < num_classes
                invariant
                    c1 < num_classes,
                    c2 <= num_classes,
                    forall|d: int|
                        0 <= d < 64
                        ==> (#[trigger] bit_set(commute, d) <==> (d < c2
                            && spec_classes_commute(*puzzle, *generators, c1 as int, d))),
                    forall|d: int|
                        0 <= d < 64
                        ==> (#[trigger] bit_set(forbid, d) <==> (c1 < d < c2
                            && spec_classes_commute(*puzzle, *generators, c1 as int, d))),
                    (forbid == 0) <==> (forall|d: int|
                        c1 < d < c2
                        ==> !(#[trigger] spec_classes_commute(*puzzle, *generators, c1 as int, d))),
                decreases num_classes - c2,
            {
                let commutes = Self::classes_commute(puzzle, generators, c1, c2);
                let ghost old_commute = commute;
                let ghost old_forbid = forbid;
                if commutes {
                    commute = commute | (1u64 << c2 as u64);
                    if c2 > c1 {
                        forbid = forbid | (1u64 << c2 as u64);
                    }
                }
                proof {
                    assert forall|d: int| 0 <= d < 64 implies
                        (#[trigger] bit_set(commute, d) <==> (d < c2 + 1
                            && spec_classes_commute(*puzzle, *generators, c1 as int, d))) by {
                        assert(bit_set(old_commute, d) <==> (d < c2
                            && spec_classes_commute(*puzzle, *generators, c1 as int, d)));
                        if commutes {
                            lemma_bit_or_shift(old_commute, c2 as u64, d as u64);
                        }
                    }
                    assert forall|d: int| 0 <= d < 64 implies
                        (#[trigger] bit_set(forbid, d) <==> (c1 < d < c2 + 1
                            && spec_classes_commute(*puzzle, *generators, c1 as int, d))) by {
                        assert(bit_set(old_forbid, d) <==> (c1 < d < c2
                            && spec_classes_commute(*puzzle, *generators, c1 as int, d)));
                        if commutes && c2 > c1 {
                            lemma_bit_or_shift(old_forbid, c2 as u64, d as u64);
                        }
                    }
                    if commutes && c2 > c1 {
                        lemma_bit_or_nonzero(old_forbid, c2 as u64);
                        assert(spec_classes_commute(*puzzle, *generators, c1 as int, c2 as int));
                        assert(!(forall|d: int|
                            c1 < d < c2 + 1
                            ==> !(#[trigger] spec_classes_commute(*puzzle, *generators, c1 as int, d))));
                    } else {
                        assert(forbid == old_forbid);
                        if old_forbid == 0 {
                            assert forall|d: int| c1 < d < c2 + 1 implies
                                !(#[trigger] spec_classes_commute(*puzzle, *generators, c1 as int, d)) by {
                                if d == c2 {
                                    assert(!commutes);
                                }
                            }
                        } else {
                            let d0 = choose|d: int|
                                c1 < d < c2 && #[trigger] spec_classes_commute(*puzzle, *generators, c1 as int, d);
                            assert(spec_classes_commute(*puzzle, *generators, c1 as int, d0));
                            assert(!(forall|d: int|
                                c1 < d < c2 + 1
                                ==> !(#[trigger] spec_classes_commute(*puzzle, *generators, c1 as int, d))));
                        }
                    }
                }
                c2 += 1;
            }
            commute_mask.push(commute);
            forbid_mask.push(forbid);
            c1 += 1;
        }
        CanonicalFSM { commute_mask, forbid_mask }
    }

    /// Whether every move of class `c1` commutes with every move of class
    /// `c2`, as the puzzle reports it.
    #[verifier::loop_isolation(false)]
    fn classes_commute<P: SemiGroupActionPuzzle>(
        puzzle: &P,
        generators: &SearchGenerators<P>,
        c1: usize,
        c2: usize,
    ) -> (r: bool)
        requires
            generators.wf(*puzzle),
            c1 < generators.by_move_class@.len(),
            c2 < generators.by_move_class@.len(),
        ensures
            r == spec_classes_commute(*puzzle, *generators, c1 as int, c2 as int),
    {
        let n1 = generators.by_move_class[c1].len();
        let mut j1: usize = 0;
        while j1 < n1
            invariant
                j1 <= n1,
                forall|a: int, b: int|
                    #![trigger generators.by_move_class@[c1 as int][a],
                        generators.by_move_class@[c2 as int][b]]
                    0 <= a < j1 && 0 <= b < generators.by_move_class@[c2 as int].len()
                    ==> puzzle.spec_commutes(
                        generators.flat@[generators.by_move_class@[c1 as int][a] as int].mv,
                        generators.flat@[generators.by_move_class@[c2 as int][b] as int].mv,
                    ),
            decreases n1 - j1,
        {
            let f1 = generators.by_move_class[c1][j1];
            let n2 = generators.by_move_class[c2].len();
            let mut j2: usize = 0;
            while j2 < n2
                invariant
                    j1 < n1,
                    j2 <= n2,
                    f1 == generators.by_move_class@[c1 as int][j1 as int],
                    forall|a: int, b: int|
                        #![trigger generators.by_move_class@[c1 as int][a],
                            generators.by_move_class@[c2 as int][b]]
                        0 <= a < j1 && 0 <= b < generators.by_move_class@[c2 as int].len()
                        ==> puzzle.spec_commutes(
                            generators.flat@[generators.by_move_class@[c1 as int][a] as int].mv,
                            generators.flat@[generators.by_move_class@[c2 as int][b] as int].mv,
                        ),
                    forall|b: int|
                        0 <= b < j2
                        ==> puzzle.spec_commutes(
                            generators.flat@[f1 as int].mv,
                            generators.flat@[
                                (#[trigger] generators.by_move_class@[c2 as int][b]) as int
                            ].mv,
                        ),
                decreases n2 - j2,
            {
                let f2 = generators.by_move_class[c2][j2];
                let commutes = match puzzle.do_moves_commute(
                    &generators.flat[f1].mv,
                    &generators.flat[f2].mv,
                ) {
                    Ok(b) => b,
                    Err(_) => {
                        proof {
                            assert(false);
                        }
                        false
                    }
                };
                if !commutes {
                    proof {
                        assert(!puzzle.spec_commutes(
                            generators.flat@[generators.by_move_class@[c1 as int][j1 as int] as int].mv,
                            generators.flat@[generators.by_move_class@[c2 as int][j2 as int] as int].mv,
                        ));
                    }
                    return false;
                }
                j2 += 1;
            }
            j1 += 1;
        }
        true
    }

    /// An automaton over `num_move_classes` classes that never prunes: every
    /// class is allowed after every state. Useful for comparing a pruned
    /// search against a plain breadth-first search.
    pub fn unrestricted(num_move_classes: usize) -> (r: Self)
        requires
            num_move_classes <= 64,
        ensures
            r.wf(),
            r.spec_num_classes() == num_move_classes,
            r.prunes_nothing(),
            forall|s: CanonicalFSMState, c: int|
                0 <= c < num_move_classes ==> #[trigger] r.spec_next_state(s, c) is Some,
    {
        let mut commute_mask: Vec<u64> = Vec::new();
        let mut forbid_mask: Vec<u64> = Vec::new();
        let mut c: usize = 0;
        while c < num_move_classes
            invariant
                commute_mask@.len() == c,
                forbid_mask@.len() == c,
                c <= num_move_classes,
                forall|i: int| 0 <= i < c ==> commute_mask@[i] == 0,
                forall|i: int| 0 <= i < c ==> forbid_mask@[i] == 0,
            decreases num_move_classes - c,
        {
            commute_mask.push(0);
            forbid_mask.push(0);
            c += 1;
        }
        let r = CanonicalFSM { commute_mask, forbid_mask };
        proof {
            assert forall|s: CanonicalFSMState, ci: int|
                0 <= ci < num_move_classes implies #[trigger] r.spec_next_state(s, ci) is Some by {
                assert(s & 0u64 == 0u64) by (bit_vector);
            }
        }
        r
    }
}

} // verus!
