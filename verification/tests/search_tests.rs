use gods_algorithm::canonical_fsm::{CanonicalFSM, CANONICAL_FSM_START_STATE};
use gods_algorithm::bulk_queue::BulkQueue;
use gods_algorithm::puzzles::{CyclicPuzzle, XorPuzzle};
use gods_algorithm::{
    GodsAlgorithmSearch, GodsAlgorithmTable, GroupActionPuzzle, HasDefaultPattern,
    HashablePatternPuzzle, MetricEnum, Move, MoveCount, SearchError, SemiGroupActionPuzzle,
};

fn g(quantum: u32, amount: i32) -> Move {
    Move { quantum, amount }
}

#[test]
fn cyclic_order_three_single_generator() {
    // One generator of order 3; its inverse is only derived by repeated
    // application, so one direction of the cycle sits one move deeper.
    // Expansion applies the cached inverse: depth 1 holds 3 - 1 = 2.
    let puzzle = CyclicPuzzle { order: 3 };
    let generators = vec![g(0, 1)];
    let mut search =
        GodsAlgorithmSearch::try_new(puzzle, None, &generators, &MetricEnum::Quantum).unwrap();
    search.fill();
    assert!(search.table.completed);
    assert_eq!(search.table.pattern_to_depth.num_patterns(), 3);
    let table = &search.table.pattern_to_depth;
    assert_eq!(table.get(&search.puzzle, &0), Some(0));
    assert_eq!(table.get(&search.puzzle, &2), Some(1));
    assert_eq!(table.get(&search.puzzle, &1), Some(2));
    // Three layers were expanded; the last one found nothing new.
    assert_eq!(search.layer_stats.len(), 3);
    assert_eq!(search.layer_stats[2].num_new_patterns, 0);
}

#[test]
fn cyclic_order_three_generator_and_inverse() {
    // With both directions as direct generators, the whole cycle is found at
    // depth 1.
    let puzzle = CyclicPuzzle { order: 3 };
    let generators = vec![g(0, 1), g(0, 2)];
    let mut search =
        GodsAlgorithmSearch::try_new(puzzle, None, &generators, &MetricEnum::Quantum).unwrap();
    search.fill();
    assert!(search.table.completed);
    assert_eq!(search.table.pattern_to_depth.num_patterns(), 3);
    let table = &search.table.pattern_to_depth;
    assert_eq!(table.get(&search.puzzle, &0), Some(0));
    assert_eq!(table.get(&search.puzzle, &1), Some(1));
    assert_eq!(table.get(&search.puzzle, &2), Some(1));
}

#[test]
fn commuting_involutions_pruned_search() {
    // Two independent commuting involutions in two commuting move classes:
    // the canonical automaton skips the non-ascending ordering, so depth 2
    // applies strictly fewer transformations than the four an unpruned
    // search applies, yet still finds the one depth-2 pattern.
    let puzzle = XorPuzzle { masks: vec![1, 2] };
    let generators = vec![g(0, 1), g(1, 1)];
    let mut search =
        GodsAlgorithmSearch::try_new(puzzle, None, &generators, &MetricEnum::Quantum).unwrap();
    search.fill();
    assert!(search.table.completed);
    assert_eq!(search.table.pattern_to_depth.num_patterns(), 4);
    let table = &search.table.pattern_to_depth;
    assert_eq!(table.get(&search.puzzle, &0), Some(0));
    assert_eq!(table.get(&search.puzzle, &1), Some(1));
    assert_eq!(table.get(&search.puzzle, &2), Some(1));
    assert_eq!(table.get(&search.puzzle, &3), Some(2));
    // Depth 2: all four moves are tested (pruned classes are counted), but
    // only three transformations are applied.
    assert_eq!(search.layer_stats[1].num_tested, 4);
    assert_eq!(search.layer_stats[1].num_applied, 3);
}

#[test]
fn pruned_and_unpruned_tables_agree() {
    // The set of patterns and their depths is identical with and without
    // canonical pruning; only the number of applications differs.
    let generators = vec![g(0, 1), g(1, 1)];
    let mut pruned = GodsAlgorithmSearch::try_new(
        XorPuzzle { masks: vec![1, 2] },
        None,
        &generators,
        &MetricEnum::Quantum,
    )
    .unwrap();
    pruned.fill();
    let mut unpruned = GodsAlgorithmSearch::try_new_unpruned(
        XorPuzzle { masks: vec![1, 2] },
        None,
        &generators,
        &MetricEnum::Quantum,
    )
    .unwrap();
    unpruned.fill();
    assert_eq!(
        pruned.table.pattern_to_depth.num_patterns(),
        unpruned.table.pattern_to_depth.num_patterns()
    );
    for pattern in 0u64..4 {
        assert_eq!(
            pruned.table.pattern_to_depth.get(&pruned.puzzle, &pattern),
            unpruned.table.pattern_to_depth.get(&unpruned.puzzle, &pattern)
        );
    }
    assert_eq!(unpruned.layer_stats[1].num_applied, 4);
    assert!(pruned.layer_stats[1].num_applied < unpruned.layer_stats[1].num_applied);
}

#[test]
fn start_pattern_override() {
    // An explicit start pattern makes the depth-0 entry that pattern, not
    // the puzzle's default.
    let puzzle = CyclicPuzzle { order: 3 };
    let generators = vec![g(0, 1)];
    let mut search =
        GodsAlgorithmSearch::try_new(puzzle, Some(1), &generators, &MetricEnum::Quantum).unwrap();
    search.fill();
    let table = &search.table.pattern_to_depth;
    assert_eq!(table.get(&search.puzzle, &1), Some(0));
    assert_eq!(table.get(&search.puzzle, &0), Some(1));
    assert_eq!(table.get(&search.puzzle, &2), Some(2));
}

#[test]
fn invalid_move_fails_setup() {
    // An invalid move in the generator list fails setup with a configuration
    // error before any search runs.
    let puzzle = CyclicPuzzle { order: 3 };
    let bad_quantum = vec![g(5, 1)];
    let r = GodsAlgorithmSearch::try_new(puzzle, None, &bad_quantum, &MetricEnum::Quantum);
    assert!(matches!(r, Err(SearchError::InvalidMove { .. })));
    let bad_amount = vec![g(0, 0)];
    let r = GodsAlgorithmSearch::try_new(puzzle, None, &bad_amount, &MetricEnum::Quantum);
    assert!(matches!(r, Err(SearchError::InvalidMove { .. })));
    let xor = XorPuzzle { masks: vec![1] };
    let out_of_range = vec![g(1, 1)];
    let r = GodsAlgorithmSearch::try_new(xor, None, &out_of_range, &MetricEnum::Quantum);
    assert!(matches!(r, Err(SearchError::InvalidMove { .. })));
}

#[test]
fn apply_into_tolerates_mangled_buffer() {
    // A previously mangled scratch buffer never changes a later result
    // compared to a fresh buffer.
    let puzzle = CyclicPuzzle { order: 5 };
    let mut fresh: u64 = 0;
    assert!(puzzle.pattern_apply_transformation_into(&3, &4, &mut fresh));
    assert_eq!(fresh, 2);
    let mut buffer: u64 = 0;
    // The transformation 9 is out of range: the call fails and leaves the
    // buffer mangled.
    assert!(!puzzle.pattern_apply_transformation_into(&3, &9, &mut buffer));
    // Reusing the mangled buffer gives exactly the fresh-buffer result.
    assert!(puzzle.pattern_apply_transformation_into(&3, &4, &mut buffer));
    assert_eq!(buffer, fresh);
    assert_eq!(puzzle.pattern_apply_transformation(&3, &4), Some(2));
}

#[test]
fn move_order_formula() {
    let puzzle = CyclicPuzzle { order: 6 };
    assert_eq!(puzzle.move_order(&g(0, 1)), Ok(MoveCount(6)));
    assert_eq!(puzzle.move_order(&g(0, 2)), Ok(MoveCount(3)));
    assert_eq!(puzzle.move_order(&g(0, 3)), Ok(MoveCount(2)));
    assert_eq!(puzzle.move_order(&g(0, 4)), Ok(MoveCount(3)));
    let xor = XorPuzzle { masks: vec![0, 7] };
    assert_eq!(xor.move_order(&g(0, 1)), Ok(MoveCount(1)));
    assert_eq!(xor.move_order(&g(1, 1)), Ok(MoveCount(2)));
}

#[test]
fn partial_action_is_no_neighbor() {
    // Out-of-range patterns or transformations simply do not apply.
    let puzzle = CyclicPuzzle { order: 3 };
    assert_eq!(puzzle.pattern_apply_transformation(&7, &1), None);
    assert_eq!(puzzle.pattern_apply_transformation(&1, &7), None);
    assert_eq!(puzzle.pattern_apply_transformation(&1, &2), Some(0));
}

#[test]
fn bulk_queue_keeps_insertion_order() {
    let mut queue: BulkQueue<u64> = BulkQueue::new(Some(10));
    queue.push(20);
    queue.push(30);
    assert_eq!(queue.size(), 3);
    assert_eq!(*queue.at(0), 10);
    assert_eq!(*queue.at(1), 20);
    assert_eq!(*queue.at(2), 30);
    let empty: BulkQueue<u64> = BulkQueue::bogus_new();
    assert_eq!(empty.size(), 0);
}

#[test]
fn table_starts_empty_and_incomplete() {
    let table: GodsAlgorithmTable<CyclicPuzzle> = GodsAlgorithmTable::new();
    assert!(!table.completed);
    assert_eq!(table.pattern_to_depth.num_patterns(), 0);
    let puzzle = CyclicPuzzle { order: 3 };
    assert_eq!(table.pattern_to_depth.get(&puzzle, &0), None);
}

#[test]
fn empty_generator_list_finds_only_start() {
    let puzzle = CyclicPuzzle { order: 3 };
    let generators: Vec<Move> = vec![];
    let mut search =
        GodsAlgorithmSearch::try_new(puzzle, None, &generators, &MetricEnum::Quantum).unwrap();
    search.fill();
    assert!(search.table.completed);
    assert_eq!(search.table.pattern_to_depth.num_patterns(), 1);
    assert_eq!(search.table.pattern_to_depth.get(&search.puzzle, &0), Some(0));
}

#[test]
fn three_commuting_classes_pruned_and_unpruned_agree() {
    // Three commuting involutions: 8 reachable patterns; pruning skips every
    // non-ascending class ordering but reaches the same table.
    let generators = vec![g(0, 1), g(1, 1), g(2, 1)];
    let mut pruned = GodsAlgorithmSearch::try_new(
        XorPuzzle { masks: vec![1, 2, 4] },
        None,
        &generators,
        &MetricEnum::Quantum,
    )
    .unwrap();
    pruned.fill();
    let mut unpruned = GodsAlgorithmSearch::try_new_unpruned(
        XorPuzzle { masks: vec![1, 2, 4] },
        None,
        &generators,
        &MetricEnum::Quantum,
    )
    .unwrap();
    unpruned.fill();
    assert_eq!(pruned.table.pattern_to_depth.num_patterns(), 8);
    assert_eq!(unpruned.table.pattern_to_depth.num_patterns(), 8);
    for pattern in 0u64..8 {
        let expected = Some(pattern.count_ones() as usize);
        assert_eq!(
            pruned.table.pattern_to_depth.get(&pruned.puzzle, &pattern),
            expected
        );
        assert_eq!(
            unpruned.table.pattern_to_depth.get(&unpruned.puzzle, &pattern),
            expected
        );
    }
    let pruned_applied: u64 = pruned.layer_stats.iter().map(|s| s.num_applied).sum();
    let unpruned_applied: u64 = unpruned.layer_stats.iter().map(|s| s.num_applied).sum();
    assert!(pruned_applied < unpruned_applied);
}

#[test]
fn automaton_is_deterministic() {
    let fsm = CanonicalFSM::unrestricted(2);
    let first = fsm.next_state(CANONICAL_FSM_START_STATE, 1);
    let second = fsm.next_state(CANONICAL_FSM_START_STATE, 1);
    assert_eq!(first, second);
    assert!(first.is_some());
}

#[test]
fn pattern_hash_is_a_function_of_the_pattern() {
    let puzzle = XorPuzzle { masks: vec![1] };
    let a: u64 = 42;
    let b: u64 = 42;
    assert_eq!(puzzle.pattern_hash_u64(&a), puzzle.pattern_hash_u64(&b));
}

#[test]
fn default_pattern_and_all_moves() {
    let puzzle = CyclicPuzzle { order: 4 };
    assert_eq!(puzzle.puzzle_default_pattern(), 0);
    let moves = puzzle.puzzle_definition_all_moves();
    assert_eq!(moves, vec![g(0, 1), g(0, 2), g(0, 3)]);
    assert_eq!(puzzle.transformation_invert(&1), 3);
    assert_eq!(puzzle.transformation_invert(&0), 0);
}
