use vstd::prelude::*;
use vstd::set_lib::lemma_len_subset;
use crate::bulk_queue::BulkQueue;
use crate::canonical_fsm::{
    bit_set, spec_classes_commute, CanonicalFSM, CanonicalFSMState, CANONICAL_FSM_START_STATE,
};
use crate::moves::{MetricEnum, Move, SearchError};
use crate::pattern_map::PatternDepthMap;
use crate::puzzle_traits::{GroupActionPuzzle, HasDefaultPattern, SemiGroupActionPuzzle};
use crate::search_generators::{num_distinct_quanta, SearchGenerators};

verus! {

/// Whether `p` can be produced from `start` by exactly `n` applications of
/// transformations drawn from `alphabet`.
pub open spec fn reachable_in<P: SemiGroupActionPuzzle>(
    puzzle: P,
    alphabet: Seq<P::Transformation>,
    start: P::Pattern,
    p: P::Pattern,
    n: nat,
) -> bool
    decreases n,
{
    if n == 0 {
        p == start
    } else {
        exists|q: P::Pattern, i: int|
            reachable_in(puzzle, alphabet, start, q, (n - 1) as nat)
                && 0 <= i < alphabet.len()
                && #[trigger] puzzle.spec_apply(q, alphabet[i]) == Some(p)
    }
}

/// Whether `r` is closed under applying the transformations of `alphabet`.
pub open spec fn closed_under<P: SemiGroupActionPuzzle>(
    puzzle: P,
    alphabet: Seq<P::Transformation>,
    r: Set<P::Pattern>,
) -> bool {
    forall|p: P::Pattern, i: int|
        r.contains(p) && 0 <= i < alphabet.len()
            && (#[trigger] puzzle.spec_apply(p, alphabet[i])) is Some
            ==> r.contains(puzzle.spec_apply(p, alphabet[i]).unwrap())
}

/// One more application extends a reaching sequence by one step.
pub proof fn lemma_reachable_step<P: SemiGroupActionPuzzle>(
    puzzle: P,
    alphabet: Seq<P::Transformation>,
    start: P::Pattern,
    q: P::Pattern,
    i: int,
    p: P::Pattern,
    n: nat,
)
    requires
        reachable_in(puzzle, alphabet, start, q, n),
        0 <= i < alphabet.len(),
        puzzle.spec_apply(q, alphabet[i]) == Some(p),
    ensures
        reachable_in(puzzle, alphabet, start, p, n + 1),
{
    assert(reachable_in(puzzle, alphabet, start, q, ((n + 1) - 1) as nat));
}

/// Everything reachable from `start` lies in any set that contains `start`
/// and is closed under the alphabet.
pub proof fn lemma_reachable_in_closed<P: SemiGroupActionPuzzle>(
    puzzle: P,
    alphabet: Seq<P::Transformation>,
    start: P::Pattern,
    p: P::Pattern,
    n: nat,
    r: Set<P::Pattern>,
)
    requires
        reachable_in(puzzle, alphabet, start, p, n),
        r.contains(start),
        closed_under(puzzle, alphabet, r),
    ensures
        r.contains(p),
    decreases n,
{
    if n != 0 {
        let (q, i): (P::Pattern, int) = choose|q: P::Pattern, i: int|
            reachable_in(puzzle, alphabet, start, q, (n - 1) as nat)
                && 0 <= i < alphabet.len()
                && #[trigger] puzzle.spec_apply(q, alphabet[i]) == Some(p);
        lemma_reachable_in_closed(puzzle, alphabet, start, q, (n - 1) as nat, r);
        assert(puzzle.spec_apply(q, alphabet[i]) is Some);
    }
}

/// The result of a search: the visited map from pattern to the minimum-move
/// depth at which the search discovered it, plus a completion flag, true once
/// a layer yields no new patterns.
pub struct GodsAlgorithmTable<P: SemiGroupActionPuzzle> {
    pub completed: bool,
    pub pattern_to_depth: PatternDepthMap<P>,
}

impl<P: SemiGroupActionPuzzle> GodsAlgorithmTable<P> {
    pub fn new() -> (r: Self)
        ensures
            !r.completed,
            r.pattern_to_depth.wf(),
            r.pattern_to_depth@ == Map::<P::Pattern, usize>::empty(),
            r.pattern_to_depth.spec_len() == 0,
    {
        GodsAlgorithmTable { completed: false, pattern_to_depth: PatternDepthMap::new() }
    }
}

impl<P: SemiGroupActionPuzzle> Default for GodsAlgorithmTable<P> {
    fn default() -> (r: Self)
        ensures
            !r.completed,
            r.pattern_to_depth.wf(),
            r.pattern_to_depth@ == Map::<P::Pattern, usize>::empty(),
    {
        Self::new()
    }
}

/// One frontier entry: a pattern together with the automaton state of the
/// canonical move-class sequence that produced it.
pub struct QueueItem<P: SemiGroupActionPuzzle> {
    pub canonical_fsm_state: CanonicalFSMState,
    pub pattern: P::Pattern,
}

/// Observational statistics for the expansion of one depth. Progress
/// reporting is a pure side channel of the search: it is recorded here,
/// deferred, and can never affect the visited map, the layer queues, or
/// search correctness. All counters saturate at the largest representable
/// value.
#[derive(Clone, Copy, PartialEq, Eq, Structural, Debug)]
pub struct LayerStats {
    /// Moves considered at this depth, moves of pruned classes included.
    pub num_tested: u64,
    /// Transformations actually applied (moves of pruned classes are counted
    /// by `num_tested` but never applied).
    pub num_applied: u64,
    /// Patterns first discovered at this depth.
    pub num_new_patterns: u64,
}

fn saturating_add_u64(a: u64, b: u64) -> (r: u64)
    ensures
        a + b <= u64::MAX ==> r == a + b,
        a + b > u64::MAX ==> r == u64::MAX,
{
    if a > u64::MAX - b {
        u64::MAX
    } else {
        a + b
    }
}

/// The breadth-first search engine: owns the visited map, the per-depth
/// layer queues, and the canonical automaton state carried alongside each
/// queued pattern, and drives the depth-by-depth expansion to a fixed point.
pub struct GodsAlgorithmSearch<P: GroupActionPuzzle + HasDefaultPattern> {
    pub puzzle: P,
    pub start_pattern: Option<P::Pattern>,
    pub search_generators: SearchGenerators<P>,
    pub canonical_fsm: CanonicalFSM,
    pub table: GodsAlgorithmTable<P>,
    pub bulk_queues: Vec<BulkQueue<QueueItem<P>>>,
    pub layer_stats: Vec<LayerStats>,
}

impl<P: GroupActionPuzzle + HasDefaultPattern> GodsAlgorithmSearch<P> {
    /// The pattern the search starts from: the explicit override if one was
    /// given, the puzzle's default pattern otherwise.
    pub open spec fn spec_start_pattern(self) -> P::Pattern {
        match self.start_pattern {
            Some(p) => p,
            None => self.puzzle.spec_default_pattern(),
        }
    }

    /// The transformations the search applies: the cached inverses of the
    /// generator transformations, in flat order.
    pub open spec fn inverse_alphabet(self) -> Seq<P::Transformation> {
        self.search_generators.inverse_alphabet()
    }

    pub open spec fn wf(self) -> bool {
        &&& self.search_generators.wf(self.puzzle)
        &&& self.canonical_fsm.wf()
        &&& self.canonical_fsm.spec_num_classes() == self.search_generators.by_move_class@.len()
        &&& self.table.pattern_to_depth.wf()
    }

    /// The search's configuration is unchanged between two engine states.
    pub open spec fn same_search(pre: Self, post: Self) -> bool {
        &&& post.puzzle == pre.puzzle
        &&& post.start_pattern == pre.start_pattern
        &&& post.search_generators == pre.search_generators
        &&& post.canonical_fsm == pre.canonical_fsm
    }

    /// Soundness of the visited map: every recorded pattern is produced from
    /// the start pattern by exactly its recorded depth many applications.
    pub open spec fn table_sound(self) -> bool {
        forall|p: P::Pattern| #[trigger] self.table.pattern_to_depth@.contains_key(p)
            ==> reachable_in(
                self.puzzle,
                self.inverse_alphabet(),
                self.spec_start_pattern(),
                p,
                self.table.pattern_to_depth@[p] as nat,
            )
    }

    /// Whether the visited map records the neighbor of `pat` under alphabet
    /// entry `i`, when that neighbor exists.
    pub open spec fn successor_recorded(self, pat: P::Pattern, i: int) -> bool {
        self.puzzle.spec_apply(pat, self.inverse_alphabet()[i]) is Some
            ==> self.table.pattern_to_depth@.contains_key(
                self.puzzle.spec_apply(pat, self.inverse_alphabet()[i]).unwrap(),
            )
    }

    /// Whether every visited pattern recorded below depth `d` has had all of
    /// its neighbors recorded too.
    pub open spec fn expanded_below(self, d: int) -> bool {
        forall|q: P::Pattern, i: int|
            self.table.pattern_to_depth@.contains_key(q)
                && self.table.pattern_to_depth@[q] < d
                && 0 <= i < self.inverse_alphabet().len()
                ==> #[trigger] self.successor_recorded(q, i)
    }

    /// Completeness and minimality of a finished table: when every pattern
    /// recorded at depth at most `d` was recorded at its true distance, every
    /// recorded depth is at most `d`, and every recorded pattern's neighbors
    /// are recorded, then every reachable pattern is in the table, at a depth
    /// no larger than any sequence that reaches it.
    pub proof fn lemma_completed_covers(self, d: int, p: P::Pattern, n: nat)
        requires
            0 <= d,
            forall|q: P::Pattern, k: nat|
                k <= d && #[trigger] reachable_in(
                    self.puzzle,
                    self.inverse_alphabet(),
                    self.spec_start_pattern(),
                    q,
                    k,
                ) ==> self.table.pattern_to_depth@.contains_key(q)
                    && self.table.pattern_to_depth@[q] <= k,
            forall|q: P::Pattern| #[trigger] self.table.pattern_to_depth@.contains_key(q)
                ==> self.table.pattern_to_depth@[q] <= d,
            self.expanded_below(d + 1),
            reachable_in(self.puzzle, self.inverse_alphabet(), self.spec_start_pattern(), p, n),
        ensures
            self.table.pattern_to_depth@.contains_key(p),
            self.table.pattern_to_depth@[p] <= n,
        decreases n,
    {
        if n <= d {
        } else {
            let (q, i): (P::Pattern, int) = choose|q: P::Pattern, i: int|
                reachable_in(
                    self.puzzle,
                    self.inverse_alphabet(),
                    self.spec_start_pattern(),
                    q,
                    (n - 1) as nat,
                ) && 0 <= i < self.inverse_alphabet().len()
                    && #[trigger] self.puzzle.spec_apply(q, self.inverse_alphabet()[i]) == Some(p);
            self.lemma_completed_covers(d, q, (n - 1) as nat);
            assert(self.successor_recorded(q, i));
        }
    }

    /// One half of the pruning-correctness comparison: every pattern a
    /// sound pruned run records is also in a complete unpruned run's table
    /// over the same puzzle, start and generators, at a depth no larger than
    /// the pruned run recorded. (That the pruned run misses nothing that the
    /// unpruned one finds is a property of the canonical automaton's
    /// construction and is checked here by test, not by proof.)
    pub proof fn lemma_pruned_within_unpruned(pruned: Self, unpruned: Self)
        requires
            pruned.table_sound(),
            unpruned.puzzle == pruned.puzzle,
            unpruned.inverse_alphabet() == pruned.inverse_alphabet(),
            unpruned.spec_start_pattern() == pruned.spec_start_pattern(),
            forall|p: P::Pattern, n: nat|
                #[trigger] reachable_in(
                    unpruned.puzzle,
                    unpruned.inverse_alphabet(),
                    unpruned.spec_start_pattern(),
                    p,
                    n,
                ) ==> unpruned.table.pattern_to_depth@.contains_key(p)
                    && unpruned.table.pattern_to_depth@[p] <= n,
        ensures
            forall|p: P::Pattern| #[trigger] pruned.table.pattern_to_depth@.contains_key(p)
                ==> unpruned.table.pattern_to_depth@.contains_key(p)
                    && unpruned.table.pattern_to_depth@[p]
                        <= pruned.table.pattern_to_depth@[p],
    {
        assert forall|p: P::Pattern| #[trigger] pruned.table.pattern_to_depth@.contains_key(p)
            implies unpruned.table.pattern_to_depth@.contains_key(p)
                && unpruned.table.pattern_to_depth@[p] <= pruned.table.pattern_to_depth@[p] by {
            assert(reachable_in(
                pruned.puzzle,
                pruned.inverse_alphabet(),
                pruned.spec_start_pattern(),
                p,
                pruned.table.pattern_to_depth@[p] as nat,
            ));
        }
    }

    /// Set up a search: build the generator table and the canonical-sequence
    /// automaton. Fails, before any search begins, exactly when a generator
    /// move is invalid for the puzzle or the move classes cannot be tracked;
    /// the visited map of a failed setup is never observable.
    pub fn try_new(
        puzzle: P,
        start_pattern: Option<P::Pattern>,
        generators: &Vec<Move>,
        quantum_metric: &MetricEnum,
    ) -> (r: Result<Self, SearchError>)
        ensures
            r is Ok <==> ((forall|i: int| 0 <= i < generators@.len()
                ==> puzzle.spec_move_valid(#[trigger] generators@[i]))
                && num_distinct_quanta(generators@) <= 64),
            r matches Ok(s) ==> {
                &&& s.wf()
                &&& s.puzzle == puzzle
                &&& s.start_pattern == start_pattern
                &&& s.search_generators.matches_moves(puzzle, generators@)
                &&& !s.table.completed
                &&& s.table.pattern_to_depth@ == Map::<P::Pattern, usize>::empty()
                &&& s.table.pattern_to_depth.spec_len() == 0
                &&& s.bulk_queues@.len() == 0
                &&& s.layer_stats@.len() == 0
                &&& s.search_generators.by_move_class@.len() == num_distinct_quanta(generators@)
                // The automaton prunes a class exactly after a commuting
                // class of greater index whose effect is still in the tail.
                &&& forall|c: int, d: int|
                    0 <= c < s.search_generators.by_move_class@.len() && 0 <= d < 64
                    ==> (#[trigger] bit_set(s.canonical_fsm.forbid_mask@[c], d)
                        <==> (c < d < s.search_generators.by_move_class@.len()
                            && spec_classes_commute(puzzle, s.search_generators, c, d)))
                &&& forall|c: int, d: int|
                    0 <= c < s.search_generators.by_move_class@.len() && 0 <= d < 64
                    ==> (#[trigger] bit_set(s.canonical_fsm.commute_mask@[c], d)
                        <==> (d < s.search_generators.by_move_class@.len()
                            && spec_classes_commute(puzzle, s.search_generators, c, d)))
                // In particular, when no two distinct move classes commute
                // (for instance, when there is at most one class), the built
                // automaton provably prunes nothing, and the completeness
                // and minimality clause of `fill` applies to it.
                &&& forall|c: int|
                    0 <= c < s.search_generators.by_move_class@.len()
                    ==> ((#[trigger] s.canonical_fsm.forbid_mask@[c]) == 0 <==> (forall|d: int|
                        c < d < s.search_generators.by_move_class@.len()
                        ==> !(#[trigger] spec_classes_commute(puzzle, s.search_generators, c, d))))
                &&& (forall|c: int, d: int|
                    0 <= c < s.search_generators.by_move_class@.len()
                        && 0 <= d < s.search_generators.by_move_class@.len() && c != d
                    ==> !(#[trigger] spec_classes_commute(puzzle, s.search_generators, c, d)))
                    ==> s.canonical_fsm.prunes_nothing()
            },
    {
        let search_generators = match SearchGenerators::try_new(&puzzle, generators, quantum_metric) {
            Ok(g) => g,
            Err(e) => {
                return Err(e);
            }
        };
        let canonical_fsm = CanonicalFSM::new(&puzzle, &search_generators);
        proof {
            if forall|c: int, d: int|
                0 <= c < search_generators.by_move_class@.len()
                    && 0 <= d < search_generators.by_move_class@.len() && c != d
                ==> !(#[trigger] spec_classes_commute(puzzle, search_generators, c, d)) {
                assert forall|c: int| 0 <= c < canonical_fsm.forbid_mask@.len()
                    implies #[trigger] canonical_fsm.forbid_mask@[c] == 0 by {
                    assert forall|d: int| c < d < search_generators.by_move_class@.len()
                        implies !(#[trigger] spec_classes_commute(
                            puzzle,
                            search_generators,
                            c,
                            d,
                        )) by {}
                }
            }
        }
        Ok(GodsAlgorithmSearch {
            puzzle,
            start_pattern,
            search_generators,
            canonical_fsm,
            table: GodsAlgorithmTable::new(),
            bulk_queues: Vec::new(),
            layer_stats: Vec::new(),
        })
    }

    /// Set up a search like [`GodsAlgorithmSearch::try_new`], but with an
    /// automaton that never prunes: a plain breadth-first search over the
    /// same generators, for comparing a pruned search's results against an
    /// unpruned one.
    pub fn try_new_unpruned(
        puzzle: P,
        start_pattern: Option<P::Pattern>,
        generators: &Vec<Move>,
        quantum_metric: &MetricEnum,
    ) -> (r: Result<Self, SearchError>)
        ensures
            r is Ok <==> ((forall|i: int| 0 <= i < generators@.len()
                ==> puzzle.spec_move_valid(#[trigger] generators@[i]))
                && num_distinct_quanta(generators@) <= 64),
            r matches Ok(s) ==> {
                &&& s.wf()
                &&& s.canonical_fsm.prunes_nothing()
                &&& s.puzzle == puzzle
                &&& s.start_pattern == start_pattern
                &&& s.search_generators.matches_moves(puzzle, generators@)
                &&& !s.table.completed
                &&& s.table.pattern_to_depth@ == Map::<P::Pattern, usize>::empty()
                &&& s.table.pattern_to_depth.spec_len() == 0
                &&& s.bulk_queues@.len() == 0
                &&& s.layer_stats@.len() == 0
            },
    {
        let mut search = match Self::try_new(puzzle, start_pattern, generators, quantum_metric) {
            Ok(s) => s,
            Err(e) => {
                return Err(e);
            }
        };
        let num_classes = search.search_generators.by_move_class.len();
        proof {
            search.canonical_fsm.lemma_num_classes_bound();
        }
        search.canonical_fsm = CanonicalFSM::unrestricted(num_classes);
        Ok(search)
    }

    /// Expand one frontier entry: for each move class, either the automaton
    /// prunes the whole class, or every move of the class is applied through
    /// the cached inverse transformation; candidates not yet in the visited
    /// map are recorded at `depth + 1` and appended to the next layer.
    #[verifier::loop_isolation(false)]
    fn expand_item(
        &mut self,
        item: &QueueItem<P>,
        depth: usize,
        next_layer: &mut BulkQueue<QueueItem<P>>,
        stats: &mut LayerStats,
    )
        requires
            old(self).wf(),
            depth < usize::MAX,
            old(self).table_sound(),
            reachable_in(
                old(self).puzzle,
                old(self).inverse_alphabet(),
                old(self).spec_start_pattern(),
                item.pattern,
                depth as nat,
            ),
            forall|p: P::Pattern| #[trigger] old(self).table.pattern_to_depth@.contains_key(p)
                && old(self).table.pattern_to_depth@[p] == depth + 1
                ==> exists|j: int| 0 <= j < old(next_layer)@.len()
                    && (#[trigger] old(next_layer)@[j]).pattern == p,
        ensures
            Self::same_search(*old(self), *final(self)),
            final(self).wf(),
            final(self).table_sound(),
            final(self).table.completed == old(self).table.completed,
            final(self).bulk_queues == old(self).bulk_queues,
            final(self).layer_stats == old(self).layer_stats,
            forall|p: P::Pattern| #[trigger] old(self).table.pattern_to_depth@.contains_key(p)
                ==> final(self).table.pattern_to_depth@.contains_key(p)
                    && final(self).table.pattern_to_depth@[p] == old(self).table.pattern_to_depth@[p],
            forall|p: P::Pattern| #[trigger] final(self).table.pattern_to_depth@.contains_key(p)
                ==> old(self).table.pattern_to_depth@.contains_key(p)
                    || final(self).table.pattern_to_depth@[p] == depth + 1,
            old(next_layer)@.is_prefix_of(final(next_layer)@),
            forall|j: int| old(next_layer)@.len() <= j < final(next_layer)@.len()
                ==> reachable_in(
                    old(self).puzzle,
                    old(self).inverse_alphabet(),
                    old(self).spec_start_pattern(),
                    (#[trigger] final(next_layer)@[j]).pattern,
                    (depth + 1) as nat,
                ),
            forall|j: int| old(next_layer)@.len() <= j < final(next_layer)@.len()
                ==> final(self).table.pattern_to_depth@.contains_key(
                    (#[trigger] final(next_layer)@[j]).pattern,
                ) && final(self).table.pattern_to_depth@[final(next_layer)@[j].pattern]
                    == depth + 1,
            final(self).table.pattern_to_depth.spec_len() + old(next_layer)@.len()
                == old(self).table.pattern_to_depth.spec_len() + final(next_layer)@.len(),
            forall|p: P::Pattern| #[trigger] final(self).table.pattern_to_depth@.contains_key(p)
                && final(self).table.pattern_to_depth@[p] == depth + 1
                ==> exists|j: int| 0 <= j < final(next_layer)@.len()
                    && (#[trigger] final(next_layer)@[j]).pattern == p,
            old(self).canonical_fsm.prunes_nothing() ==> forall|i: int|
                0 <= i < old(self).inverse_alphabet().len()
                ==> #[trigger] final(self).successor_recorded(item.pattern, i),
            forall|p: P::Pattern| #[trigger] final(self).table.pattern_to_depth@.contains_key(p)
                && !old(self).table.pattern_to_depth@.contains_key(p)
                ==> exists|i: int|
                    0 <= i < old(self).inverse_alphabet().len()
                        && #[trigger] old(self).puzzle.spec_apply(
                            item.pattern,
                            old(self).inverse_alphabet()[i],
                        ) == Some(p),
    {
        let num_classes = self.search_generators.by_move_class.len();
        let mut move_class_index: usize = 0;
        while move_class_index < num_classes
            invariant
                move_class_index <= num_classes,
                Self::same_search(*old(self), *self),
                self.wf(),
                self.table_sound(),
                self.table.completed == old(self).table.completed,
                self.bulk_queues == old(self).bulk_queues,
                self.layer_stats == old(self).layer_stats,
                forall|p: P::Pattern| #[trigger] old(self).table.pattern_to_depth@.contains_key(p)
                    ==> self.table.pattern_to_depth@.contains_key(p)
                        && self.table.pattern_to_depth@[p] == old(self).table.pattern_to_depth@[p],
                forall|p: P::Pattern| #[trigger] self.table.pattern_to_depth@.contains_key(p)
                    ==> old(self).table.pattern_to_depth@.contains_key(p)
                        || self.table.pattern_to_depth@[p] == depth + 1,
                old(next_layer)@.is_prefix_of(next_layer@),
                forall|j: int| old(next_layer)@.len() <= j < next_layer@.len()
                    ==> reachable_in(
                        old(self).puzzle,
                        old(self).inverse_alphabet(),
                        old(self).spec_start_pattern(),
                        (#[trigger] next_layer@[j]).pattern,
                        (depth + 1) as nat,
                    ),
                forall|j: int| old(next_layer)@.len() <= j < next_layer@.len()
                    ==> self.table.pattern_to_depth@.contains_key(
                        (#[trigger] next_layer@[j]).pattern,
                    ) && self.table.pattern_to_depth@[next_layer@[j].pattern] == depth + 1,
                self.table.pattern_to_depth.spec_len() + old(next_layer)@.len()
                    == old(self).table.pattern_to_depth.spec_len() + next_layer@.len(),
                forall|p: P::Pattern| #[trigger] self.table.pattern_to_depth@.contains_key(p)
                    && self.table.pattern_to_depth@[p] == depth + 1
                    ==> exists|j: int| 0 <= j < next_layer@.len()
                        && (#[trigger] next_layer@[j]).pattern == p,
                forall|p: P::Pattern| #[trigger] self.table.pattern_to_depth@.contains_key(p)
                    && !old(self).table.pattern_to_depth@.contains_key(p)
                    ==> exists|i: int|
                        0 <= i < old(self).inverse_alphabet().len()
                            && #[trigger] old(self).puzzle.spec_apply(
                                item.pattern,
                                old(self).inverse_alphabet()[i],
                            ) == Some(p),
                old(self).canonical_fsm.prunes_nothing() ==> forall|i: int|
                    0 <= i < self.search_generators.flat@.len()
                        && (#[trigger] self.search_generators.flat@[i]).move_class_index
                            < move_class_index
                    ==> self.successor_recorded(item.pattern, i),
            decreases num_classes - move_class_index,
        {
            let maybe_next_state = self.canonical_fsm.next_state(item.canonical_fsm_state, move_class_index);
            match maybe_next_state {
                None => {
                    proof {
                        // An automaton that prunes nothing never takes this
                        // branch.
                        if old(self).canonical_fsm.prunes_nothing() {
                            self.canonical_fsm.lemma_prunes_nothing(
                                item.canonical_fsm_state,
                                move_class_index as int,
                            );
                        }
                    }
                    // The whole class is redundant here; count its moves for
                    // statistics only.
                    let class_size = self.search_generators.by_move_class[move_class_index].len();
                    stats.num_tested = saturating_add_u64(stats.num_tested, class_size as u64);
                }
                Some(next_fsm_state) => {
                    let class_size = self.search_generators.by_move_class[move_class_index].len();
                    let mut k: usize = 0;
                    while k < class_size
                        invariant
                            k <= class_size,
                            move_class_index < num_classes,
                            class_size == self.search_generators.by_move_class@[move_class_index as int].len(),
                            Self::same_search(*old(self), *self),
                            self.wf(),
                            self.table_sound(),
                            self.table.completed == old(self).table.completed,
                            self.bulk_queues == old(self).bulk_queues,
                            self.layer_stats == old(self).layer_stats,
                            forall|p: P::Pattern| #[trigger] old(self).table.pattern_to_depth@.contains_key(p)
                                ==> self.table.pattern_to_depth@.contains_key(p)
                                    && self.table.pattern_to_depth@[p] == old(self).table.pattern_to_depth@[p],
                            forall|p: P::Pattern| #[trigger] self.table.pattern_to_depth@.contains_key(p)
                                ==> old(self).table.pattern_to_depth@.contains_key(p)
                                    || self.table.pattern_to_depth@[p] == depth + 1,
                            old(next_layer)@.is_prefix_of(next_layer@),
                            forall|j: int| old(next_layer)@.len() <= j < next_layer@.len()
                                ==> reachable_in(
                                    old(self).puzzle,
                                    old(self).inverse_alphabet(),
                                    old(self).spec_start_pattern(),
                                    (#[trigger] next_layer@[j]).pattern,
                                    (depth + 1) as nat,
                                ),
                            forall|j: int| old(next_layer)@.len() <= j < next_layer@.len()
                                ==> self.table.pattern_to_depth@.contains_key(
                                    (#[trigger] next_layer@[j]).pattern,
                                ) && self.table.pattern_to_depth@[next_layer@[j].pattern] == depth + 1,
                            self.table.pattern_to_depth.spec_len() + old(next_layer)@.len()
                                == old(self).table.pattern_to_depth.spec_len() + next_layer@.len(),
                            forall|p: P::Pattern| #[trigger] self.table.pattern_to_depth@.contains_key(p)
                                && self.table.pattern_to_depth@[p] == depth + 1
                                ==> exists|j: int| 0 <= j < next_layer@.len()
                                    && (#[trigger] next_layer@[j]).pattern == p,
                            forall|p: P::Pattern| #[trigger] self.table.pattern_to_depth@.contains_key(p)
                                && !old(self).table.pattern_to_depth@.contains_key(p)
                                ==> exists|i: int|
                                    0 <= i < old(self).inverse_alphabet().len()
                                        && #[trigger] old(self).puzzle.spec_apply(
                                            item.pattern,
                                            old(self).inverse_alphabet()[i],
                                        ) == Some(p),
                            old(self).canonical_fsm.prunes_nothing() ==> forall|i: int|
                                0 <= i < self.search_generators.flat@.len()
                                    && (#[trigger] self.search_generators.flat@[i]).move_class_index
                                        < move_class_index
                                ==> self.successor_recorded(item.pattern, i),
                            old(self).canonical_fsm.prunes_nothing() ==> forall|j: int|
                                0 <= j < k
                                ==> self.successor_recorded(
                                    item.pattern,
                                    (#[trigger] self.search_generators.by_move_class@[
                                        move_class_index as int
                                    ][j]) as int,
                                ),
                        decreases class_size - k,
                    {
                        let ghost iter_next_layer = next_layer@;
                        stats.num_tested = saturating_add_u64(stats.num_tested, 1);
                        stats.num_applied = saturating_add_u64(stats.num_applied, 1);
                        let flat_move_index = self.search_generators.by_move_class[move_class_index][k];
                        let maybe_new_pattern = self.puzzle.pattern_apply_transformation(
                            &item.pattern,
                            &self.search_generators.flat[flat_move_index].inverse_transformation,
                        );
                        proof {
                            assert(self.inverse_alphabet()[flat_move_index as int]
                                == self.search_generators.flat@[flat_move_index as int].inverse_transformation);
                        }
                        match maybe_new_pattern {
                            None => {
                                // Partial action: no such neighbor; the
                                // search continues unaffected.
                            }
                            Some(new_pattern) => {
                                if !self.table.pattern_to_depth.contains(&self.puzzle, &new_pattern) {
                                    let queued_pattern = self.puzzle.pattern_clone(&new_pattern);
                                    proof {
                                        lemma_reachable_step(
                                            self.puzzle,
                                            self.inverse_alphabet(),
                                            self.spec_start_pattern(),
                                            item.pattern,
                                            flat_move_index as int,
                                            new_pattern,
                                            depth as nat,
                                        );
                                    }
                                    next_layer.push(QueueItem {
                                        canonical_fsm_state: next_fsm_state,
                                        pattern: queued_pattern,
                                    });
                                    self.table.pattern_to_depth.insert_new(new_pattern, depth + 1);
                                    stats.num_new_patterns = saturating_add_u64(stats.num_new_patterns, 1);
                                    proof {
                                        assert(next_layer@[next_layer@.len() - 1].pattern == new_pattern);
                                        assert forall|j: int|
                                            old(next_layer)@.len() <= j < next_layer@.len()
                                            implies self.table.pattern_to_depth@.contains_key(
                                                (#[trigger] next_layer@[j]).pattern,
                                            ) && self.table.pattern_to_depth@[next_layer@[j].pattern]
                                                == depth + 1 by {
                                            if j < next_layer@.len() - 1 {
                                                assert(next_layer@[j] == iter_next_layer[j]);
                                            }
                                        }
                                        assert forall|p: P::Pattern|
                                            #[trigger] self.table.pattern_to_depth@.contains_key(p)
                                                && self.table.pattern_to_depth@[p] == depth + 1
                                            implies exists|j: int| 0 <= j < next_layer@.len()
                                                && (#[trigger] next_layer@[j]).pattern == p by {
                                            if p == new_pattern {
                                                assert((next_layer@[next_layer@.len() - 1]).pattern == p);
                                            } else {
                                                let j = choose|j: int|
                                                    0 <= j < iter_next_layer.len()
                                                        && (#[trigger] iter_next_layer[j]).pattern == p;
                                                assert((next_layer@[j]).pattern == p);
                                            }
                                        }
                                    }
                                }
                            }
                        }
                        proof {
                            assert(self.successor_recorded(item.pattern, flat_move_index as int));
                        }
                        k += 1;
                    }
                    proof {
                        if old(self).canonical_fsm.prunes_nothing() {
                            assert forall|i: int|
                                0 <= i < self.search_generators.flat@.len()
                                    && (#[trigger] self.search_generators.flat@[i]).move_class_index
                                        < move_class_index + 1
                                implies self.successor_recorded(item.pattern, i) by {
                                if self.search_generators.flat@[i].move_class_index
                                    == move_class_index as int {
                                    let members = self.search_generators.by_move_class@[
                                        move_class_index as int
                                    ];
                                    assert(members@.contains(i as usize));
                                    let j = choose|j: int|
                                        0 <= j < members@.len() && members@[j] == i as usize;
                                    assert(self.successor_recorded(
                                        item.pattern,
                                        self.search_generators.by_move_class@[
                                            move_class_index as int
                                        ][j] as int,
                                    ));
                                }
                            }
                        }
                    }
                }
            }
            move_class_index += 1;
        }
    }

    /// Expand one whole layer: drain `layer`, which holds the frontier of
    /// `depth`, and return the frontier of `depth + 1`. Exactly one visited
    /// map entry is added per returned frontier item.
    #[verifier::loop_isolation(false)]
    fn expand_layer(
        &mut self,
        layer: &BulkQueue<QueueItem<P>>,
        depth: usize,
    ) -> (next_layer: BulkQueue<QueueItem<P>>)
        requires
            old(self).wf(),
            depth < usize::MAX,
            old(self).table_sound(),
            forall|j: int| 0 <= j < layer@.len()
                ==> reachable_in(
                    old(self).puzzle,
                    old(self).inverse_alphabet(),
                    old(self).spec_start_pattern(),
                    (#[trigger] layer@[j]).pattern,
                    depth as nat,
                ),
            forall|p: P::Pattern| #[trigger] old(self).table.pattern_to_depth@.contains_key(p)
                ==> old(self).table.pattern_to_depth@[p] <= depth,
        ensures
            Self::same_search(*old(self), *final(self)),
            final(self).wf(),
            final(self).table_sound(),
            final(self).table.completed == old(self).table.completed,
            final(self).bulk_queues == old(self).bulk_queues,
            final(self).layer_stats@.len() == old(self).layer_stats@.len() + 1,
            forall|p: P::Pattern| #[trigger] final(self).table.pattern_to_depth@.contains_key(p)
                ==> old(self).table.pattern_to_depth@.contains_key(p)
                    || final(self).table.pattern_to_depth@[p] == depth + 1,
            forall|p: P::Pattern| #[trigger] final(self).table.pattern_to_depth@.contains_key(p)
                && final(self).table.pattern_to_depth@[p] == depth + 1
                ==> exists|j: int| 0 <= j < next_layer@.len()
                    && (#[trigger] next_layer@[j]).pattern == p,
            old(self).canonical_fsm.prunes_nothing() ==> forall|j: int, i: int|
                0 <= j < layer@.len() && 0 <= i < old(self).inverse_alphabet().len()
                ==> #[trigger] final(self).successor_recorded(layer@[j].pattern, i),
            forall|p: P::Pattern| #[trigger] old(self).table.pattern_to_depth@.contains_key(p)
                ==> final(self).table.pattern_to_depth@.contains_key(p)
                    && final(self).table.pattern_to_depth@[p] == old(self).table.pattern_to_depth@[p],
            forall|j: int| 0 <= j < next_layer@.len()
                ==> reachable_in(
                    old(self).puzzle,
                    old(self).inverse_alphabet(),
                    old(self).spec_start_pattern(),
                    (#[trigger] next_layer@[j]).pattern,
                    (depth + 1) as nat,
                ),
            final(self).table.pattern_to_depth.spec_len()
                == old(self).table.pattern_to_depth.spec_len() + next_layer@.len(),
    {
        let mut next_layer: BulkQueue<QueueItem<P>> = BulkQueue::new(None);
        let mut stats = LayerStats { num_tested: 0, num_applied: 0, num_new_patterns: 0 };
        let layer_size = layer.size();
        let mut idx: usize = 0;
        while idx < layer_size
            invariant
                idx <= layer_size,
                Self::same_search(*old(self), *self),
                self.wf(),
                self.table_sound(),
                self.table.completed == old(self).table.completed,
                self.bulk_queues == old(self).bulk_queues,
                self.layer_stats == old(self).layer_stats,
                forall|p: P::Pattern| #[trigger] old(self).table.pattern_to_depth@.contains_key(p)
                    ==> self.table.pattern_to_depth@.contains_key(p)
                        && self.table.pattern_to_depth@[p] == old(self).table.pattern_to_depth@[p],
                forall|j: int| 0 <= j < next_layer@.len()
                    ==> reachable_in(
                        old(self).puzzle,
                        old(self).inverse_alphabet(),
                        old(self).spec_start_pattern(),
                        (#[trigger] next_layer@[j]).pattern,
                        (depth + 1) as nat,
                    ),
                self.table.pattern_to_depth.spec_len()
                    == old(self).table.pattern_to_depth.spec_len() + next_layer@.len(),
                forall|p: P::Pattern| #[trigger] self.table.pattern_to_depth@.contains_key(p)
                    ==> old(self).table.pattern_to_depth@.contains_key(p)
                        || self.table.pattern_to_depth@[p] == depth + 1,
                forall|p: P::Pattern| #[trigger] self.table.pattern_to_depth@.contains_key(p)
                    && self.table.pattern_to_depth@[p] == depth + 1
                    ==> exists|j: int| 0 <= j < next_layer@.len()
                        && (#[trigger] next_layer@[j]).pattern == p,
                old(self).canonical_fsm.prunes_nothing() ==> forall|j: int, i: int|
                    0 <= j < idx && 0 <= i < old(self).inverse_alphabet().len()
                    ==> #[trigger] self.successor_recorded(layer@[j].pattern, i),
                forall|p: P::Pattern| #[trigger] self.table.pattern_to_depth@.contains_key(p)
                    && !old(self).table.pattern_to_depth@.contains_key(p)
                    ==> exists|j: int, i: int|
                        0 <= j < layer@.len() && 0 <= i < old(self).inverse_alphabet().len()
                            && #[trigger] old(self).puzzle.spec_apply(
                                layer@[j].pattern,
                                old(self).inverse_alphabet()[i],
                            ) == Some(p),
                forall|j: int| 0 <= j < next_layer@.len()
                    ==> self.table.pattern_to_depth@.contains_key(
                        (#[trigger] next_layer@[j]).pattern,
                    ) && self.table.pattern_to_depth@[next_layer@[j].pattern] == depth + 1,
            decreases layer_size - idx,
        {
            let item = layer.at(idx);
            let ghost prev_next_layer = next_layer@;
            let ghost prev_engine = *self;
            self.expand_item(item, depth, &mut next_layer, &mut stats);
            proof {
                assert forall|p: P::Pattern| #[trigger] self.table.pattern_to_depth@.contains_key(p)
                    && !old(self).table.pattern_to_depth@.contains_key(p)
                    implies exists|j: int, i: int|
                        0 <= j < layer@.len() && 0 <= i < old(self).inverse_alphabet().len()
                            && #[trigger] old(self).puzzle.spec_apply(
                                layer@[j].pattern,
                                old(self).inverse_alphabet()[i],
                            ) == Some(p) by {
                    if prev_engine.table.pattern_to_depth@.contains_key(p) {
                    } else {
                        let i0 = choose|i: int|
                            0 <= i < prev_engine.inverse_alphabet().len()
                                && #[trigger] prev_engine.puzzle.spec_apply(
                                    item.pattern,
                                    prev_engine.inverse_alphabet()[i],
                                ) == Some(p);
                        assert(layer@[idx as int].pattern == item.pattern);
                        assert(old(self).puzzle.spec_apply(
                            layer@[idx as int].pattern,
                            old(self).inverse_alphabet()[i0],
                        ) == Some(p));
                    }
                }
                assert forall|j: int| 0 <= j < next_layer@.len()
                    implies self.table.pattern_to_depth@.contains_key(
                        (#[trigger] next_layer@[j]).pattern,
                    ) && self.table.pattern_to_depth@[next_layer@[j].pattern] == depth + 1 by {
                    if j < prev_next_layer.len() {
                        assert(next_layer@[j] == prev_next_layer[j]);
                        assert(prev_engine.table.pattern_to_depth@.contains_key(
                            prev_next_layer[j].pattern,
                        ));
                    }
                }
                assert forall|j: int| 0 <= j < next_layer@.len()
                    implies reachable_in(
                        old(self).puzzle,
                        old(self).inverse_alphabet(),
                        old(self).spec_start_pattern(),
                        (#[trigger] next_layer@[j]).pattern,
                        (depth + 1) as nat,
                    ) by {
                    if j < prev_next_layer.len() {
                        assert(next_layer@[j] == prev_next_layer[j]);
                    }
                }
                if old(self).canonical_fsm.prunes_nothing() {
                    assert forall|j: int, i: int|
                        0 <= j < idx + 1 && 0 <= i < old(self).inverse_alphabet().len()
                        implies #[trigger] self.successor_recorded(layer@[j].pattern, i) by {
                        if j < idx {
                            assert(prev_engine.successor_recorded(layer@[j].pattern, i));
                            let neighbor = self.puzzle.spec_apply(
                                layer@[j].pattern,
                                self.inverse_alphabet()[i],
                            );
                            if neighbor is Some {
                                assert(prev_engine.table.pattern_to_depth@.contains_key(
                                    neighbor.unwrap(),
                                ));
                                assert(self.table.pattern_to_depth@.contains_key(
                                    neighbor.unwrap(),
                                ));
                            }
                        } else {
                            assert(self.successor_recorded(item.pattern, i));
                        }
                    }
                }
            }
            idx += 1;
        }
        let ghost before_stats = *self;
        self.layer_stats.push(stats);
        proof {
            assert forall|p: P::Pattern| #[trigger] self.table.pattern_to_depth@.contains_key(p)
                && !old(self).table.pattern_to_depth@.contains_key(p)
                implies exists|j: int, i: int|
                    0 <= j < layer@.len() && 0 <= i < self.inverse_alphabet().len()
                        && #[trigger] self.puzzle.spec_apply(
                            layer@[j].pattern,
                            self.inverse_alphabet()[i],
                        ) == Some(p) by {
                let (j, i): (int, int) = choose|j: int, i: int|
                    0 <= j < layer@.len() && 0 <= i < old(self).inverse_alphabet().len()
                        && #[trigger] old(self).puzzle.spec_apply(
                            layer@[j].pattern,
                            old(self).inverse_alphabet()[i],
                        ) == Some(p);
                assert(self.puzzle == old(self).puzzle);
                assert(self.inverse_alphabet() == old(self).inverse_alphabet());
                assert(self.puzzle.spec_apply(
                    layer@[j].pattern,
                    self.inverse_alphabet()[i],
                ) == Some(p));
            }
            if old(self).canonical_fsm.prunes_nothing() {
                assert forall|j: int, i: int|
                    0 <= j < layer@.len() && 0 <= i < old(self).inverse_alphabet().len()
                    implies #[trigger] self.successor_recorded(layer@[j].pattern, i) by {
                    assert(before_stats.successor_recorded(layer@[j].pattern, i));
                    assert(before_stats.table.pattern_to_depth@ == self.table.pattern_to_depth@);
                }
            }
        }
        next_layer
    }

    /// Run the search to its fixed point: seed depth 0 with the start
    /// pattern and the automaton start state, then expand depth by depth
    /// until a layer yields no new patterns.
    ///
    /// The precondition asks for a finite superset of the reachable patterns
    /// (always available for a finite state space); from it the search is
    /// proved to terminate, since every expanded layer either discovers at
    /// least one new pattern or completes the table.
    #[verifier::loop_isolation(false)]
    #[verifier::rlimit(100)]
    pub fn fill(&mut self)
        requires
            old(self).wf(),
            !old(self).table.completed,
            old(self).table.pattern_to_depth@ == Map::<P::Pattern, usize>::empty(),
            old(self).table.pattern_to_depth.spec_len() == 0,
            old(self).bulk_queues@.len() == 0,
            exists|r: Set<P::Pattern>|
                r.finite() && r.contains(old(self).spec_start_pattern())
                    && #[trigger] closed_under(old(self).puzzle, old(self).inverse_alphabet(), r),
        ensures
            Self::same_search(*old(self), *final(self)),
            final(self).wf(),
            final(self).table.completed,
            final(self).table_sound(),
            final(self).table.pattern_to_depth@.contains_key(old(self).spec_start_pattern()),
            final(self).table.pattern_to_depth@[old(self).spec_start_pattern()] == 0,
            // With an automaton that prunes nothing — a plain breadth-first
            // search — the table is also complete and minimal: every
            // reachable pattern is recorded, at a depth no larger than that
            // of any sequence reaching it.
            old(self).canonical_fsm.prunes_nothing() ==> forall|p: P::Pattern, n: nat|
                #[trigger] reachable_in(
                    old(self).puzzle,
                    old(self).inverse_alphabet(),
                    old(self).spec_start_pattern(),
                    p,
                    n,
                ) ==> final(self).table.pattern_to_depth@.contains_key(p)
                    && final(self).table.pattern_to_depth@[p] <= n,
    {
        let ghost start0 = old(self).spec_start_pattern();
        let ghost reachable_bound: Set<P::Pattern> = choose|r: Set<P::Pattern>|
            r.finite() && r.contains(old(self).spec_start_pattern())
                && #[trigger] closed_under(old(self).puzzle, old(self).inverse_alphabet(), r);
        let start_pattern = match &self.start_pattern {
            Some(sp) => self.puzzle.pattern_clone(sp),
            None => self.puzzle.puzzle_default_pattern(),
        };
        let queued_start = self.puzzle.pattern_clone(&start_pattern);
        proof {
            assert(start_pattern == start0);
            assert(queued_start == start0);
        }
        self.table.pattern_to_depth.insert_new(start_pattern, 0);
        let start_queue = BulkQueue::new(Some(QueueItem {
            canonical_fsm_state: CANONICAL_FSM_START_STATE,
            pattern: queued_start,
        }));
        let ghost start_queue_view = start_queue@;
        self.bulk_queues.push(start_queue);
        let mut current_depth: usize = 0;
        proof {
            assert(reachable_in(self.puzzle, self.inverse_alphabet(), start0, start0, 0nat));
            assert(self.bulk_queues@.last()@ == start_queue_view);
            assert(start_queue_view[0].pattern == start0);
            assert forall|p: P::Pattern|
                #[trigger] self.table.pattern_to_depth@.contains_key(p)
                    && self.table.pattern_to_depth@[p] == current_depth
                implies exists|j: int| 0 <= j < self.bulk_queues@.last()@.len()
                    && (#[trigger] self.bulk_queues@.last()@[j]).pattern == p by {
                assert(p == start0);
                assert((self.bulk_queues@.last()@[0]).pattern == p);
            }
        }
        while !self.table.completed
            invariant
                Self::same_search(*old(self), *self),
                self.wf(),
                self.table_sound(),
                self.table.pattern_to_depth@.contains_key(start0),
                self.table.pattern_to_depth@[start0] == 0,
                current_depth < self.table.pattern_to_depth.spec_len(),
                self.table.completed || self.bulk_queues@.len() == current_depth + 1,
                !self.table.completed ==> self.bulk_queues@.len() >= 1
                    && forall|j: int| 0 <= j < self.bulk_queues@.last()@.len()
                        ==> reachable_in(
                            self.puzzle,
                            self.inverse_alphabet(),
                            start0,
                            (#[trigger] self.bulk_queues@.last()@[j]).pattern,
                            current_depth as nat,
                        ),
                forall|p: P::Pattern| #[trigger] self.table.pattern_to_depth@.contains_key(p)
                    ==> self.table.pattern_to_depth@[p] <= current_depth,
                !self.table.completed ==> forall|p: P::Pattern|
                    #[trigger] self.table.pattern_to_depth@.contains_key(p)
                        && self.table.pattern_to_depth@[p] == current_depth
                    ==> exists|j: int| 0 <= j < self.bulk_queues@.last()@.len()
                        && (#[trigger] self.bulk_queues@.last()@[j]).pattern == p,
                old(self).canonical_fsm.prunes_nothing() ==> forall|p: P::Pattern, k: nat|
                    k <= current_depth && #[trigger] reachable_in(
                        self.puzzle,
                        self.inverse_alphabet(),
                        start0,
                        p,
                        k,
                    ) ==> self.table.pattern_to_depth@.contains_key(p)
                        && self.table.pattern_to_depth@[p] <= k,
                old(self).canonical_fsm.prunes_nothing() ==> self.expanded_below(
                    if self.table.completed {
                        current_depth as int + 1
                    } else {
                        current_depth as int
                    },
                ),
            decreases (if self.table.completed {
                0int
            } else {
                reachable_bound.len() - self.table.pattern_to_depth.spec_len() + 1
            }),
        {
            let ghost pre = *self;
            let ghost d0 = current_depth as int;
            proof {
                // The visited map never outgrows the finite bound: every
                // recorded pattern is reachable, and everything reachable
                // lies in the bound.
                assert forall|p: P::Pattern| #[trigger] self.table.pattern_to_depth@.dom().contains(p)
                    implies reachable_bound.contains(p) by {
                    lemma_reachable_in_closed(
                        self.puzzle,
                        self.inverse_alphabet(),
                        start0,
                        p,
                        self.table.pattern_to_depth@[p] as nat,
                        reachable_bound,
                    );
                }
                lemma_len_subset(self.table.pattern_to_depth@.dom(), reachable_bound);
                self.table.pattern_to_depth.lemma_len();
            }
            let ghost prev_bulk = self.bulk_queues@;
            let layer = match self.bulk_queues.pop() {
                Some(q) => q,
                None => {
                    proof {
                        assert(false);
                    }
                    BulkQueue::new(None)
                }
            };
            proof {
                assert(layer == prev_bulk.last());
                assert forall|j: int| 0 <= j < layer@.len()
                    implies reachable_in(
                        self.puzzle,
                        self.inverse_alphabet(),
                        start0,
                        (#[trigger] layer@[j]).pattern,
                        current_depth as nat,
                    ) by {
                    assert(prev_bulk.last()@[j] == layer@[j]);
                }
            }
            let num_patterns_so_far = self.table.pattern_to_depth.num_patterns();
            proof {
                // The depth counter stays below the pattern count, which
                // fits in a machine word, so `current_depth + 1` cannot
                // overflow.
                assert(current_depth < num_patterns_so_far);
            }
            let next_layer = self.expand_layer(&layer, current_depth);
            let ghost after_expand = *self;
            let num_new = next_layer.size();
            let ghost next_layer_view = next_layer@;
            self.bulk_queues.push(BulkQueue::bogus_new());
            self.bulk_queues.push(next_layer);
            if num_new == 0 {
                self.table.completed = true;
            } else {
                current_depth += 1;
            }
            proof {
                if !self.table.completed {
                    assert(self.bulk_queues@.last()@ == next_layer_view);
                    assert forall|p: P::Pattern|
                        #[trigger] self.table.pattern_to_depth@.contains_key(p)
                            && self.table.pattern_to_depth@[p] == current_depth
                        implies exists|j: int| 0 <= j < self.bulk_queues@.last()@.len()
                            && (#[trigger] self.bulk_queues@.last()@[j]).pattern == p by {
                        let j = choose|j: int|
                            0 <= j < next_layer_view.len()
                                && (#[trigger] next_layer_view[j]).pattern == p;
                        assert((self.bulk_queues@.last()@[j]).pattern == p);
                    }
                }
            }
            proof {
                if pre.canonical_fsm.prunes_nothing() {
                    // Minimality: anything reachable within the new depth is
                    // recorded at no more than its distance.
                    assert forall|p: P::Pattern, k: nat|
                        k <= current_depth && #[trigger] reachable_in(
                            self.puzzle,
                            self.inverse_alphabet(),
                            start0,
                            p,
                            k,
                        ) implies self.table.pattern_to_depth@.contains_key(p)
                            && self.table.pattern_to_depth@[p] <= k by {
                        if k <= d0 {
                            assert(pre.table.pattern_to_depth@.contains_key(p)
                                && pre.table.pattern_to_depth@[p] <= k);
                        } else {
                            let (q, i): (P::Pattern, int) = choose|q: P::Pattern, i: int|
                                reachable_in(
                                    self.puzzle,
                                    self.inverse_alphabet(),
                                    start0,
                                    q,
                                    (k - 1) as nat,
                                ) && 0 <= i < self.inverse_alphabet().len()
                                    && #[trigger] self.puzzle.spec_apply(
                                        q,
                                        self.inverse_alphabet()[i],
                                    ) == Some(p);
                            assert(pre.table.pattern_to_depth@.contains_key(q)
                                && pre.table.pattern_to_depth@[q] <= k - 1);
                            let dq = pre.table.pattern_to_depth@[q];
                            if dq < d0 {
                                lemma_reachable_step(
                                    self.puzzle,
                                    self.inverse_alphabet(),
                                    start0,
                                    q,
                                    i,
                                    p,
                                    dq as nat,
                                );
                                assert(reachable_in(
                                    self.puzzle,
                                    self.inverse_alphabet(),
                                    start0,
                                    p,
                                    (dq + 1) as nat,
                                ));
                                assert(pre.table.pattern_to_depth@.contains_key(p)
                                    && pre.table.pattern_to_depth@[p] <= dq + 1);
                            } else {
                                let j = choose|j: int|
                                    0 <= j < layer@.len() && (#[trigger] layer@[j]).pattern == q;
                                assert(after_expand.successor_recorded(layer@[j].pattern, i));
                                assert(after_expand.table.pattern_to_depth@
                                    == self.table.pattern_to_depth@);
                                assert(self.successor_recorded(q, i));
                            }
                        }
                    }
                    // Expansion record: every entry strictly below the new
                    // frontier depth has all its neighbors recorded.
                    let bound = if self.table.completed {
                        current_depth as int + 1
                    } else {
                        current_depth as int
                    };
                    assert forall|q: P::Pattern, i: int|
                        self.table.pattern_to_depth@.contains_key(q)
                            && self.table.pattern_to_depth@[q] < bound
                            && 0 <= i < self.inverse_alphabet().len()
                        implies #[trigger] self.successor_recorded(q, i) by {
                        if pre.table.pattern_to_depth@.contains_key(q) {
                            if pre.table.pattern_to_depth@[q] < d0 {
                                assert(pre.expanded_below(d0));
                                assert(pre.successor_recorded(q, i));
                            } else {
                                let j = choose|j: int|
                                    0 <= j < layer@.len() && (#[trigger] layer@[j]).pattern == q;
                                assert(after_expand.successor_recorded(layer@[j].pattern, i));
                                assert(after_expand.table.pattern_to_depth@
                                    == self.table.pattern_to_depth@);
                                assert(self.successor_recorded(layer@[j].pattern, i));
                            }
                        }
                    }
                }
            }
            proof {
                // Re-establish that the grown visited map still fits in the
                // finite bound, so the loop measure stays non-negative.
                assert forall|p: P::Pattern| #[trigger] self.table.pattern_to_depth@.dom().contains(p)
                    implies reachable_bound.contains(p) by {
                    lemma_reachable_in_closed(
                        self.puzzle,
                        self.inverse_alphabet(),
                        start0,
                        p,
                        self.table.pattern_to_depth@[p] as nat,
                        reachable_bound,
                    );
                }
                lemma_len_subset(self.table.pattern_to_depth@.dom(), reachable_bound);
                self.table.pattern_to_depth.lemma_len();
            }
        }
        proof {
            if old(self).canonical_fsm.prunes_nothing() {
                assert forall|p: P::Pattern, n: nat|
                    #[trigger] reachable_in(
                        old(self).puzzle,
                        old(self).inverse_alphabet(),
                        old(self).spec_start_pattern(),
                        p,
                        n,
                    ) implies self.table.pattern_to_depth@.contains_key(p)
                        && self.table.pattern_to_depth@[p] <= n by {
                    self.lemma_completed_covers(current_depth as int, p, n);
                }
            }
        }
    }
}

} // verus!
