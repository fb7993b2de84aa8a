use vstd::prelude::*;
use crate::moves::{MetricEnum, Move, SearchError};
use crate::puzzle_traits::{GroupActionPuzzle, SemiGroupActionPuzzle};

verus! {

/// Precomputed data for one concrete generator move: its transformation, the
/// cached inverse of that transformation (every expansion step of the search
/// applies the inverse, so it is computed once here), and the move class the
/// move belongs to.
pub struct MoveTransformationInfo<P: SemiGroupActionPuzzle> {
    pub mv: Move,
    pub transformation: P::Transformation,
    pub inverse_transformation: P::Transformation,
    pub flat_move_index: usize,
    pub move_class_index: usize,
}

/// The generator table: a dense, order-preserving array of per-move data,
/// and a partition of the flat move indices into move classes. Two moves
/// share a class exactly when they repeat the same quantum, i.e. the same
/// underlying base move; such moves are interchangeable for
/// canonical-sequence pruning.
pub struct SearchGenerators<P: SemiGroupActionPuzzle> {
    pub flat: Vec<MoveTransformationInfo<P>>,
    /// For each move class, the flat move indices of its members, in
    /// increasing order.
    pub by_move_class: Vec<Vec<usize>>,
    /// For each move class, the quantum shared by all its members.
    pub class_quanta: Vec<u32>,
}

/// Whether some move in `s` has quantum `q`.
pub open spec fn seq_has_quantum(s: Seq<Move>, q: u32) -> bool {
    exists|j: int| 0 <= j < s.len() && s[j].quantum == q
}

/// The number of distinct quanta among the moves of `s`; this is the number
/// of move classes a generator list gives rise to.
pub open spec fn num_distinct_quanta(s: Seq<Move>) -> nat
    decreases s.len(),
{
    if s.len() == 0 {
        0
    } else {
        num_distinct_quanta(s.drop_last())
            + (if seq_has_quantum(s.drop_last(), s.last().quantum) { 0nat } else { 1nat })
    }
}

impl<P: SemiGroupActionPuzzle> SearchGenerators<P> {
    /// Well-formedness with respect to `puzzle`: the flat array is indexed
    /// consistently, every entry caches the transformation of a valid move
    /// and its inverse (for a puzzle with invertible transformations), and
    /// `by_move_class` partitions the flat indices by quantum.
    pub open spec fn wf(self, puzzle: P) -> bool {
        &&& forall|i: int| 0 <= i < self.flat@.len() ==> (#[trigger] self.flat@[i]).flat_move_index == i
        &&& forall|i: int| 0 <= i < self.flat@.len() ==> puzzle.spec_move_valid((#[trigger] self.flat@[i]).mv)
        &&& forall|i: int| 0 <= i < self.flat@.len() ==> (#[trigger] self.flat@[i]).transformation
            == puzzle.spec_transformation_from_move(self.flat@[i].mv)
        &&& forall|i: int| 0 <= i < self.flat@.len() ==> (#[trigger] self.flat@[i]).move_class_index < self.by_move_class@.len()
        &&& self.class_quanta@.len() == self.by_move_class@.len()
        &&& forall|i: int| 0 <= i < self.flat@.len() ==> (#[trigger] self.flat@[i]).mv.quantum
            == self.class_quanta@[self.flat@[i].move_class_index as int]
        &&& forall|c: int, j: int|
            0 <= c < self.by_move_class@.len() && 0 <= j < self.by_move_class@[c].len()
            ==> (#[trigger] self.by_move_class@[c][j]) < self.flat@.len()
                && self.flat@[self.by_move_class@[c][j] as int].move_class_index == c
        &&& forall|i: int| 0 <= i < self.flat@.len()
            ==> self.by_move_class@[(#[trigger] self.flat@[i]).move_class_index as int]@.contains(i as usize)
        &&& forall|c: int, j1: int, j2: int|
            #![trigger self.by_move_class@[c][j1], self.by_move_class@[c][j2]]
            0 <= c < self.by_move_class@.len() && 0 <= j1 < j2 < self.by_move_class@[c].len()
            ==> self.by_move_class@[c][j1] < self.by_move_class@[c][j2]
        &&& forall|c1: int, c2: int|
            0 <= c1 < self.class_quanta@.len() && 0 <= c2 < self.class_quanta@.len() && c1 != c2
            ==> self.class_quanta@[c1] != self.class_quanta@[c2]
    }

    /// The inverses of the generator transformations, in flat order: the
    /// alphabet of transformations the search actually applies.
    pub open spec fn inverse_alphabet(self) -> Seq<P::Transformation> {
        self.flat@.map(|i: int, info: MoveTransformationInfo<P>| info.inverse_transformation)
    }

}

impl<P: GroupActionPuzzle> SearchGenerators<P> {
    /// Whether this table matches the generator list `moves` under `puzzle`:
    /// one flat entry per listed move, in order.
    pub open spec fn matches_moves(self, puzzle: P, moves: Seq<Move>) -> bool {
        &&& self.flat@.len() == moves.len()
        &&& forall|i: int| 0 <= i < moves.len() ==> (#[trigger] self.flat@[i]).mv == moves[i]
        &&& forall|i: int| 0 <= i < moves.len() ==> (#[trigger] self.flat@[i]).inverse_transformation
            == puzzle.spec_invert(puzzle.spec_transformation_from_move(moves[i]))
    }

    /// Build the generator table for `generator_moves` under the given
    /// move-counting convention. Fails exactly when a listed move is not
    /// defined for the puzzle, or when the moves fall into more move classes
    /// than the canonical automaton's state representation can track.
    #[verifier::loop_isolation(false)]
    pub fn try_new(
        puzzle: &P,
        generator_moves: &Vec<Move>,
        quantum_metric: &MetricEnum,
    ) -> (r: Result<Self, SearchError>)
        ensures
            r is Ok <==> ((forall|i: int| 0 <= i < generator_moves@.len()
                ==> puzzle.spec_move_valid(#[trigger] generator_moves@[i]))
                && num_distinct_quanta(generator_moves@) <= 64),
            r matches Ok(g) ==> g.wf(*puzzle) && g.matches_moves(*puzzle, generator_moves@)
                && g.by_move_class@.len() == num_distinct_quanta(generator_moves@),
    {
        match quantum_metric {
            MetricEnum::Quantum => {}
        }
        let ghost gens: Seq<Move> = generator_moves@;
        let n = generator_moves.len();
        let mut flat: Vec<MoveTransformationInfo<P>> = Vec::new();
        let mut class_quanta: Vec<u32> = Vec::new();
        let mut idx: usize = 0;
        while idx < n
            invariant
                n == gens.len(),
                generator_moves@ == gens,
                idx <= n,
                flat@.len() == idx,
                class_quanta@.len() == num_distinct_quanta(gens.subrange(0, idx as int)),
                class_quanta@.len() <= 64,
                forall|q: u32| #[trigger] class_quanta@.contains(q)
                    <==> seq_has_quantum(gens.subrange(0, idx as int), q),
                forall|c1: int, c2: int|
                    0 <= c1 < class_quanta@.len() && 0 <= c2 < class_quanta@.len() && c1 != c2
                    ==> class_quanta@[c1] != class_quanta@[c2],
                forall|i: int| 0 <= i < idx ==> puzzle.spec_move_valid((#[trigger] flat@[i]).mv),
                forall|i: int| 0 <= i < idx ==> (#[trigger] flat@[i]).mv == gens[i],
                forall|i: int| 0 <= i < idx ==> (#[trigger] flat@[i]).transformation
                    == puzzle.spec_transformation_from_move(gens[i]),
                forall|i: int| 0 <= i < idx ==> (#[trigger] flat@[i]).inverse_transformation
                    == puzzle.spec_invert(puzzle.spec_transformation_from_move(gens[i])),
                forall|i: int| 0 <= i < idx ==> (#[trigger] flat@[i]).flat_move_index == i,
                forall|i: int| 0 <= i < idx ==> (#[trigger] flat@[i]).move_class_index < class_quanta@.len(),
                forall|i: int| 0 <= i < idx ==> (#[trigger] flat@[i]).mv.quantum
                    == class_quanta@[flat@[i].move_class_index as int],
            decreases n - idx,
        {
            let mv: Move = generator_moves[idx];
            proof {
                assert(gens.subrange(0, idx as int + 1).drop_last() =~= gens.subrange(0, idx as int));
                assert(gens.subrange(0, idx as int + 1).last() == gens[idx as int]);
            }
            match puzzle.move_order(&mv) {
                Ok(_) => {}
                Err(e) => {
                    return Err(e);
                }
            }
            let transformation = match puzzle.puzzle_transformation_from_move(&mv) {
                Ok(t) => t,
                Err(e) => {
                    return Err(e);
                }
            };
            let inverse_transformation = puzzle.transformation_invert(&transformation);
            let nc = class_quanta.len();
            let mut found_class: Option<usize> = None;
            let mut c: usize = 0;
            while c < nc
                invariant
                    nc == class_quanta@.len(),
                    c <= nc,
                    match found_class {
                        Option::Some(ci) => ci < nc && class_quanta@[ci as int] == mv.quantum,
                        Option::None => forall|j: int| 0 <= j < c ==> class_quanta@[j] != mv.quantum,
                    },
                decreases nc - c,
            {
                if class_quanta[c] == mv.quantum {
                    found_class = Some(c);
                }
                c += 1;
            }
            let ghost old_cq = class_quanta@;
            proof {
                match found_class {
                    Option::Some(ci) => {
                        assert(class_quanta@.contains(mv.quantum));
                    }
                    Option::None => {
                        assert forall|w: int| 0 <= w < old_cq.len() implies old_cq[w] != mv.quantum by {}
                        assert(!class_quanta@.contains(mv.quantum));
                    }
                }
            }
            let class_index: usize = match found_class {
                Some(ci) => ci,
                None => {
                    if class_quanta.len() == 64 {
                        proof {
                            assert(!seq_has_quantum(gens.subrange(0, idx as int), mv.quantum));
                            assert(num_distinct_quanta(gens.subrange(0, idx as int + 1)) == 65);
                            lemma_num_distinct_quanta_prefix_le(gens, idx as int + 1);
                        }
                        return Err(SearchError::TooManyMoveClasses);
                    }
                    let ci = class_quanta.len();
                    class_quanta.push(mv.quantum);
                    ci
                }
            };
            proof {
                if found_class is Some {
                    assert(class_quanta@ == old_cq);
                    assert(seq_has_quantum(gens.subrange(0, idx as int), mv.quantum));
                } else {
                    assert(class_quanta@ == old_cq.push(mv.quantum));
                    assert(!seq_has_quantum(gens.subrange(0, idx as int), mv.quantum));
                    assert forall|c1: int, c2: int|
                        0 <= c1 < class_quanta@.len() && 0 <= c2 < class_quanta@.len() && c1 != c2
                        implies class_quanta@[c1] != class_quanta@[c2] by {
                        if c1 < old_cq.len() && c2 < old_cq.len() {
                        } else if c1 == old_cq.len() {
                            assert(old_cq[c2] != mv.quantum);
                        } else {
                            assert(old_cq[c1] != mv.quantum);
                        }
                    }
                }
                assert(class_quanta@[class_index as int] == mv.quantum);
            }
            let flat_move_index = flat.len();
            flat.push(MoveTransformationInfo {
                mv,
                transformation,
                inverse_transformation,
                flat_move_index,
                move_class_index: class_index,
            });
            proof {
                assert forall|q: u32| #[trigger] class_quanta@.contains(q)
                    implies seq_has_quantum(gens.subrange(0, idx as int + 1), q) by {
                    let w = choose|w: int| 0 <= w < class_quanta@.len() && class_quanta@[w] == q;
                    if w < old_cq.len() {
                        assert(old_cq[w] == q);
                        assert(old_cq.contains(q));
                        assert(seq_has_quantum(gens.subrange(0, idx as int), q));
                        let j = choose|j: int|
                            0 <= j < gens.subrange(0, idx as int).len()
                                && (#[trigger] gens.subrange(0, idx as int)[j]).quantum == q;
                        assert(gens.subrange(0, idx as int + 1)[j].quantum == q);
                    } else {
                        assert(q == mv.quantum);
                        assert(gens.subrange(0, idx as int + 1)[idx as int].quantum == q);
                    }
                }
                assert forall|q: u32| seq_has_quantum(gens.subrange(0, idx as int + 1), q)
                    implies #[trigger] class_quanta@.contains(q) by {
                    let j = choose|j: int|
                        0 <= j < gens.subrange(0, idx as int + 1).len()
                            && (#[trigger] gens.subrange(0, idx as int + 1)[j]).quantum == q;
                    if j < idx as int {
                        assert(gens.subrange(0, idx as int)[j].quantum == q);
                        assert(seq_has_quantum(gens.subrange(0, idx as int), q));
                        assert(old_cq.contains(q));
                        let w = choose|w: int| 0 <= w < old_cq.len() && old_cq[w] == q;
                        assert(class_quanta@[w] == q);
                    } else {
                        assert(q == mv.quantum);
                        assert(class_quanta@[class_index as int] == q);
                    }
                }
            }
            idx += 1;
        }
        proof {
            assert(gens.subrange(0, n as int) =~= gens);
        }
        let num_classes = class_quanta.len();
        let mut by_move_class: Vec<Vec<usize>> = Vec::new();
        let mut c: usize = 0;
        while c < num_classes
            invariant
                num_classes == class_quanta@.len(),
                c <= num_classes,
                by_move_class@.len() == c,
                forall|i: int| 0 <= i < flat@.len() ==> (#[trigger] flat@[i]).move_class_index < num_classes,
                forall|cc: int, j: int|
                    0 <= cc < c && 0 <= j < by_move_class@[cc].len()
                    ==> (#[trigger] by_move_class@[cc][j]) < flat@.len()
                        && flat@[by_move_class@[cc][j] as int].move_class_index == cc,
                forall|cc: int, j1: int, j2: int|
                    #![trigger by_move_class@[cc][j1], by_move_class@[cc][j2]]
                    0 <= cc < c && 0 <= j1 < j2 < by_move_class@[cc].len()
                    ==> by_move_class@[cc][j1] < by_move_class@[cc][j2],
                forall|i: int|
                    0 <= i < flat@.len() && (#[trigger] flat@[i]).move_class_index < c
                    ==> by_move_class@[flat@[i].move_class_index as int]@.contains(i as usize),
            decreases num_classes - c,
        {
            let mut members: Vec<usize> = Vec::new();
            let fl = flat.len();
            let mut i: usize = 0;
            while i < fl
                invariant
                    fl == flat@.len(),
                    i <= fl,
                    forall|j: int| 0 <= j < members@.len()
                        ==> (#[trigger] members@[j]) < i
                            && flat@[members@[j] as int].move_class_index == c,
                    forall|j1: int, j2: int|
                        #![trigger members@[j1], members@[j2]]
                        0 <= j1 < j2 < members@.len() ==> members@[j1] < members@[j2],
                    forall|k: int|
                        0 <= k < i && (#[trigger] flat@[k]).move_class_index == c
                        ==> members@.contains(k as usize),
                decreases fl - i,
            {
                if flat[i].move_class_index == c {
                    let ghost old_members = members@;
                    members.push(i);
                    proof {
                        assert(members@[members@.len() - 1] == i);
                        assert forall|k: int|
                            0 <= k < i && (#[trigger] flat@[k]).move_class_index == c
                            implies members@.contains(k as usize) by {
                            let w = choose|w: int| 0 <= w < old_members.len() && old_members[w] == k as usize;
                            assert(members@[w] == k as usize);
                        }
                    }
                }
                i += 1;
            }
            by_move_class.push(members);
            c += 1;
        }
        let result = SearchGenerators { flat, by_move_class, class_quanta };
        proof {
            assert forall|i: int| 0 <= i < generator_moves@.len()
                implies puzzle.spec_move_valid(#[trigger] generator_moves@[i]) by {
                assert(result.flat@[i].mv == gens[i]);
                assert(puzzle.spec_move_valid(result.flat@[i].mv));
            }
        }
        Ok(result)
    }
}

/// The number of distinct quanta in a prefix never exceeds the number in the
/// whole list.
proof fn lemma_num_distinct_quanta_prefix_le(s: Seq<Move>, k: int)
    requires
        0 <= k <= s.len(),
    ensures
        num_distinct_quanta(s.subrange(0, k)) <= num_distinct_quanta(s),
    decreases s.len() - k,
{
    if k == s.len() {
        assert(s.subrange(0, k) =~= s);
    } else {
        lemma_num_distinct_quanta_prefix_le(s, k + 1);
        assert(s.subrange(0, k + 1).drop_last() =~= s.subrange(0, k));
    }
}

} // verus!

