use vstd::prelude::*;
use crate::puzzle_traits::SemiGroupActionPuzzle;

verus! {

/// The visited map of a search: every pattern discovered so far, with the
/// depth (moves from the start pattern) at which it was first discovered.
/// Each pattern is inserted exactly once — [`PatternDepthMap::insert_new`]
/// demands that the key is absent and leaves every existing binding
/// untouched — so no pattern is ever bound to two different depths.
pub struct PatternDepthMap<P: SemiGroupActionPuzzle> {
    entries: Vec<(P::Pattern, usize)>,
}

impl<P: SemiGroupActionPuzzle> PatternDepthMap<P> {
    /// The mathematical content: a finite map from pattern to depth.
    pub closed spec fn view(self) -> Map<P::Pattern, usize> {
        Self::map_of(self.entries@)
    }

    pub closed spec fn map_of(s: Seq<(P::Pattern, usize)>) -> Map<P::Pattern, usize>
        decreases s.len(),
    {
        if s.len() == 0 {
            Map::empty()
        } else {
            Self::map_of(s.drop_last()).insert(s.last().0, s.last().1)
        }
    }

    /// Well-formedness: no pattern occurs twice.
    pub closed spec fn wf(self) -> bool {
        forall|i: int, j: int|
            0 <= i < j < self.entries@.len() ==> (#[trigger] self.entries@[i]).0 != (#[trigger] self.entries@[j]).0
    }

    /// The number of patterns recorded.
    pub closed spec fn spec_len(self) -> nat {
        self.entries@.len()
    }

    proof fn lemma_map_of_contains(s: Seq<(P::Pattern, usize)>, k: P::Pattern)
        ensures
            Self::map_of(s).contains_key(k) <==> exists|i: int| 0 <= i < s.len() && (#[trigger] s[i]).0 == k,
        decreases s.len(),
    {
        if s.len() > 0 {
            Self::lemma_map_of_contains(s.drop_last(), k);
            if s.last().0 == k {
                assert(s[s.len() - 1].0 == k);
            } else if Self::map_of(s).contains_key(k) {
                let i = choose|i: int| 0 <= i < s.drop_last().len() && (#[trigger] s.drop_last()[i]).0 == k;
                assert(s[i].0 == k);
            } else {
                if exists|i: int| 0 <= i < s.len() && (#[trigger] s[i]).0 == k {
                    let i = choose|i: int| 0 <= i < s.len() && (#[trigger] s[i]).0 == k;
                    assert(i < s.len() - 1);
                    assert(s.drop_last()[i].0 == k);
                }
            }
        }
    }

    proof fn lemma_map_of_get(s: Seq<(P::Pattern, usize)>, i: int)
        requires
            0 <= i < s.len(),
            forall|a: int, b: int|
                0 <= a < b < s.len() ==> (#[trigger] s[a]).0 != (#[trigger] s[b]).0,
        ensures
            Self::map_of(s).contains_key(s[i].0),
            Self::map_of(s)[s[i].0] == s[i].1,
        decreases s.len(),
    {
        Self::lemma_map_of_contains(s, s[i].0);
        if i == s.len() - 1 {
        } else {
            assert(s.drop_last()[i] == s[i]);
            Self::lemma_map_of_get(s.drop_last(), i);
            assert(s.last().0 != s[i].0);
        }
    }

    proof fn lemma_map_of_len(s: Seq<(P::Pattern, usize)>)
        requires
            forall|a: int, b: int|
                0 <= a < b < s.len() ==> (#[trigger] s[a]).0 != (#[trigger] s[b]).0,
        ensures
            Self::map_of(s).dom().finite(),
            Self::map_of(s).len() == s.len(),
        decreases s.len(),
    {
        if s.len() > 0 {
            Self::lemma_map_of_len(s.drop_last());
            Self::lemma_map_of_contains(s.drop_last(), s.last().0);
        }
    }

    /// The number of patterns in the map equals the number of entries.
    pub proof fn lemma_len(self)
        requires
            self.wf(),
        ensures
            self@.dom().finite(),
            self@.len() == self.spec_len(),
    {
        Self::lemma_map_of_len(self.entries@);
    }

    /// An empty map.
    pub fn new() -> (r: Self)
        ensures
            r.wf(),
            r@ == Map::<P::Pattern, usize>::empty(),
            r.spec_len() == 0,
    {
        PatternDepthMap { entries: Vec::new() }
    }

    pub fn num_patterns(&self) -> (n: usize)
        ensures
            n == self.spec_len(),
    {
        self.entries.len()
    }

    /// The depth recorded for `pattern`, if it has been discovered.
    #[verifier::loop_isolation(false)]
    pub fn get(&self, puzzle: &P, pattern: &P::Pattern) -> (r: Option<usize>)
        requires
            self.wf(),
        ensures
            r == (if self@.contains_key(*pattern) {
                Some(self@[*pattern])
            } else {
                None::<usize>
            }),
    {
        proof {
            Self::lemma_map_of_contains(self.entries@, *pattern);
        }
        let n = self.entries.len();
        let mut i: usize = 0;
        while i < n
            invariant
                i <= n,
                forall|j: int| 0 <= j < i ==> (#[trigger] self.entries@[j]).0 != *pattern,
            decreases n - i,
        {
            if puzzle.pattern_eq(&self.entries[i].0, pattern) {
                proof {
                    Self::lemma_map_of_get(self.entries@, i as int);
                }
                return Some(self.entries[i].1);
            }
            i += 1;
        }
        None
    }

    /// Whether `pattern` has been discovered.
    pub fn contains(&self, puzzle: &P, pattern: &P::Pattern) -> (r: bool)
        requires
            self.wf(),
        ensures
            r == self@.contains_key(*pattern),
    {
        self.get(puzzle, pattern).is_some()
    }

    /// Record a newly discovered pattern. The pattern must be new; every
    /// existing binding is left exactly as it was.
    pub fn insert_new(&mut self, pattern: P::Pattern, depth: usize)
        requires
            old(self).wf(),
            !old(self)@.contains_key(pattern),
        ensures
            final(self).wf(),
            final(self)@ == old(self)@.insert(pattern, depth),
            final(self).spec_len() == old(self).spec_len() + 1,
    {
        proof {
            Self::lemma_map_of_contains(self.entries@, pattern);
        }
        let ghost old_entries = self.entries@;
        self.entries.push((pattern, depth));
        proof {
            assert(self.entries@.drop_last() =~= old_entries);
            assert(self.entries@.last() == (pattern, depth));
            assert forall|i: int, j: int|
                0 <= i < j < self.entries@.len()
                implies (#[trigger] self.entries@[i]).0 != (#[trigger] self.entries@[j]).0 by {
                if j == self.entries@.len() - 1 {
                    assert(self.entries@[i] == old_entries[i]);
                }
            }
        }
    }
}

} // verus!
