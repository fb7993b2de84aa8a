use vstd::prelude::*;
use vstd::arithmetic::div_mod::lemma_mod_bound;
use crate::moves::{Move, MoveCount, SearchError};
use crate::puzzle_traits::{
    GroupActionPuzzle, HasDefaultPattern, HashablePatternPuzzle, SemiGroupActionPuzzle,
};

verus! {

/// Euclid's greatest common divisor.
pub open spec fn spec_gcd(a: nat, b: nat) -> nat
    decreases b,
{
    if b == 0 {
        a
    } else {
        spec_gcd(b, a % b)
    }
}

/// The greatest common divisor of two positive numbers is positive.
pub proof fn lemma_gcd_pos(a: nat, b: nat)
    requires
        a > 0 || b > 0,
    ensures
        spec_gcd(a, b) > 0,
    decreases b,
{
    if b > 0 {
        lemma_gcd_pos(b, a % b);
    }
}

fn gcd_u64(a: u64, b: u64) -> (g: u64)
    ensures
        g == spec_gcd(a as nat, b as nat),
{
    let mut x = a;
    let mut y = b;
    while y != 0
        invariant
            spec_gcd(x as nat, y as nat) == spec_gcd(a as nat, b as nat),
        decreases y,
    {
        let r = x % y;
        x = y;
        y = r;
    }
    x
}

/// A cyclic puzzle: the patterns are the residues modulo `order`, and one
/// base move (quantum `0`) rotates by its amount. A worked example of the
/// action interface whose whole behaviour is verified against the interface's
/// contracts.
#[derive(Clone, Copy, PartialEq, Eq, Structural, Debug)]
pub struct CyclicPuzzle {
    pub order: u64,
}

impl SemiGroupActionPuzzle for CyclicPuzzle {
    type Pattern = u64;

    type Transformation = u64;

    open spec fn spec_move_valid(self, m: Move) -> bool {
        m.quantum == 0 && 1 <= m.amount && (m.amount as int) < (self.order as int)
    }

    open spec fn spec_move_order(self, m: Move) -> u64 {
        (self.order as nat / spec_gcd(self.order as nat, m.amount as nat)) as u64
    }

    open spec fn spec_transformation_from_move(self, m: Move) -> u64 {
        m.amount as u64
    }

    open spec fn spec_commutes(self, m1: Move, m2: Move) -> bool {
        true
    }

    open spec fn spec_apply(self, p: u64, t: u64) -> Option<u64> {
        if self.order > 0 && p < self.order && t < self.order {
            Some((((p as int) + (t as int)) % (self.order as int)) as u64)
        } else {
            None
        }
    }

    fn move_order(&self, m: &Move) -> (r: Result<MoveCount, SearchError>) {
        if m.quantum == 0 && 1 <= m.amount && ((m.amount as u64) < self.order) {
            let g = gcd_u64(self.order, m.amount as u64);
            proof {
                lemma_gcd_pos(self.order as nat, m.amount as nat);
            }
            Ok(MoveCount(self.order / g))
        } else {
            Err(SearchError::InvalidMove { mv: *m })
        }
    }

    fn puzzle_transformation_from_move(&self, m: &Move) -> (r: Result<u64, SearchError>) {
        if m.quantum == 0 && 1 <= m.amount && ((m.amount as u64) < self.order) {
            Ok(m.amount as u64)
        } else {
            Err(SearchError::InvalidMove { mv: *m })
        }
    }

    fn do_moves_commute(&self, m1: &Move, m2: &Move) -> (r: Result<bool, SearchError>) {
        if !(m1.quantum == 0 && 1 <= m1.amount && ((m1.amount as u64) < self.order)) {
            Err(SearchError::InvalidMove { mv: *m1 })
        } else if !(m2.quantum == 0 && 1 <= m2.amount && ((m2.amount as u64) < self.order)) {
            Err(SearchError::InvalidMove { mv: *m2 })
        } else {
            Ok(true)
        }
    }

    fn pattern_apply_transformation(&self, pattern: &u64, transformation_to_apply: &u64) -> (r: Option<u64>) {
        if self.order > 0 && *pattern < self.order && *transformation_to_apply < self.order {
            let sum: u128 = (*pattern as u128) + (*transformation_to_apply as u128);
            let rem: u128 = sum % (self.order as u128);
            proof {
                lemma_mod_bound(sum as int, self.order as int);
            }
            Some(rem as u64)
        } else {
            None
        }
    }

    fn pattern_apply_transformation_into(
        &self,
        pattern: &u64,
        transformation_to_apply: &u64,
        into_pattern: &mut u64,
    ) -> (applied: bool) {
        // Write an unreduced intermediate first: when the transformation does
        // not apply, the buffer is deliberately left in this mangled state.
        *into_pattern = *pattern ^ *transformation_to_apply;
        match self.pattern_apply_transformation(pattern, transformation_to_apply) {
            Some(q) => {
                *into_pattern = q;
                true
            }
            None => false,
        }
    }

    fn pattern_eq(&self, a: &u64, b: &u64) -> (r: bool) {
        *a == *b
    }

    fn pattern_clone(&self, pattern: &u64) -> (r: u64) {
        *pattern
    }
}

impl GroupActionPuzzle for CyclicPuzzle {
    open spec fn spec_invert(self, t: u64) -> u64 {
        if 0 < t && t < self.order {
            (self.order - t) as u64
        } else {
            t
        }
    }

    #[verifier::loop_isolation(false)]
    fn puzzle_definition_all_moves(&self) -> (moves: Vec<Move>) {
        let mut moves: Vec<Move> = Vec::new();
        let mut amount: i32 = 1;
        while (amount as u64) < self.order && amount < i32::MAX
            invariant
                1 <= amount,
                amount == 1 || (amount as u64) <= self.order,
                moves@.len() == amount - 1,
                forall|k: int| 0 <= k < moves@.len()
                    ==> #[trigger] moves@[k] == (Move { quantum: 0u32, amount: (k + 1) as i32 }),
            decreases i32::MAX - amount,
        {
            moves.push(Move { quantum: 0, amount });
            amount += 1;
        }
        // The largest representable amount is a valid move when the order
        // exceeds it; the loop guard stopped short of it.
        if (amount as u64) < self.order {
            moves.push(Move { quantum: 0, amount });
        }
        proof {
            assert forall|k: int| 0 <= k < moves@.len()
                implies self.spec_move_valid(#[trigger] moves@[k]) by {
                assert(moves@[k] == (Move { quantum: 0u32, amount: (k + 1) as i32 }));
            }
            assert forall|m: Move| self.spec_move_valid(m) implies moves@.contains(m) by {
                assert(moves@[m.amount - 1] == m);
            }
        }
        moves
    }

    fn transformation_invert(&self, t: &u64) -> (r: u64) {
        if 0 < *t && *t < self.order {
            self.order - *t
        } else {
            *t
        }
    }
}

impl HasDefaultPattern for CyclicPuzzle {
    open spec fn spec_default_pattern(self) -> u64 {
        0u64
    }

    fn puzzle_default_pattern(&self) -> (r: u64) {
        0
    }
}

impl HashablePatternPuzzle for CyclicPuzzle {
    open spec fn spec_pattern_hash_u64(self, p: u64) -> u64 {
        p
    }

    fn pattern_hash_u64(&self, pattern: &u64) -> (r: u64) {
        *pattern
    }
}

/// A puzzle whose patterns are bit vectors and whose base moves toggle fixed
/// masks: every pair of moves commutes and every move is an involution (or
/// the identity, for a zero mask). Each base move is its own move class, so
/// this puzzle exercises canonical-sequence pruning across commuting classes.
#[derive(Clone, PartialEq, Eq, Debug)]
pub struct XorPuzzle {
    pub masks: Vec<u64>,
}

impl SemiGroupActionPuzzle for XorPuzzle {
    type Pattern = u64;

    type Transformation = u64;

    open spec fn spec_move_valid(self, m: Move) -> bool {
        (m.quantum as int) < self.masks@.len() && m.amount == 1
    }

    open spec fn spec_move_order(self, m: Move) -> u64 {
        if self.masks@[m.quantum as int] == 0 {
            1u64
        } else {
            2u64
        }
    }

    open spec fn spec_transformation_from_move(self, m: Move) -> u64 {
        self.masks@[m.quantum as int]
    }

    open spec fn spec_commutes(self, m1: Move, m2: Move) -> bool {
        true
    }

    open spec fn spec_apply(self, p: u64, t: u64) -> Option<u64> {
        Some(p ^ t)
    }

    fn move_order(&self, m: &Move) -> (r: Result<MoveCount, SearchError>) {
        if (m.quantum as usize) < self.masks.len() && m.amount == 1 {
            if self.masks[m.quantum as usize] == 0 {
                Ok(MoveCount(1))
            } else {
                Ok(MoveCount(2))
            }
        } else {
            Err(SearchError::InvalidMove { mv: *m })
        }
    }

    fn puzzle_transformation_from_move(&self, m: &Move) -> (r: Result<u64, SearchError>) {
        if (m.quantum as usize) < self.masks.len() && m.amount == 1 {
            Ok(self.masks[m.quantum as usize])
        } else {
            Err(SearchError::InvalidMove { mv: *m })
        }
    }

    fn do_moves_commute(&self, m1: &Move, m2: &Move) -> (r: Result<bool, SearchError>) {
        if !((m1.quantum as usize) < self.masks.len() && m1.amount == 1) {
            Err(SearchError::InvalidMove { mv: *m1 })
        } else if !((m2.quantum as usize) < self.masks.len() && m2.amount == 1) {
            Err(SearchError::InvalidMove { mv: *m2 })
        } else {
            Ok(true)
        }
    }

    fn pattern_apply_transformation(&self, pattern: &u64, transformation_to_apply: &u64) -> (r: Option<u64>) {
        Some(*pattern ^ *transformation_to_apply)
    }

    fn pattern_apply_transformation_into(
        &self,
        pattern: &u64,
        transformation_to_apply: &u64,
        into_pattern: &mut u64,
    ) -> (applied: bool) {
        *into_pattern = *pattern ^ *transformation_to_apply;
        true
    }

    fn pattern_eq(&self, a: &u64, b: &u64) -> (r: bool) {
        *a == *b
    }

    fn pattern_clone(&self, pattern: &u64) -> (r: u64) {
        *pattern
    }
}

impl GroupActionPuzzle for XorPuzzle {
    open spec fn spec_invert(self, t: u64) -> u64 {
        t
    }

    #[verifier::loop_isolation(false)]
    fn puzzle_definition_all_moves(&self) -> (moves: Vec<Move>) {
        let mut moves: Vec<Move> = Vec::new();
        let mut q: u32 = 0;
        while (q as usize) < self.masks.len() && q < u32::MAX
            invariant
                (q as usize) <= self.masks.len(),
                moves@.len() == q,
                forall|k: int| 0 <= k < moves@.len()
                    ==> #[trigger] moves@[k] == (Move { quantum: k as u32, amount: 1i32 }),
            decreases u32::MAX - q,
        {
            moves.push(Move { quantum: q, amount: 1 });
            q += 1;
        }
        // The largest representable quantum is a valid move when the mask
        // table is large enough; the loop guard stopped short of it.
        if (q as usize) < self.masks.len() {
            moves.push(Move { quantum: q, amount: 1 });
        }
        proof {
            assert forall|k: int| 0 <= k < moves@.len()
                implies self.spec_move_valid(#[trigger] moves@[k]) by {
                assert(moves@[k] == (Move { quantum: k as u32, amount: 1i32 }));
            }
            assert forall|m: Move| self.spec_move_valid(m) implies moves@.contains(m) by {
                assert(moves@[m.quantum as int] == m);
            }
        }
        moves
    }

    fn transformation_invert(&self, t: &u64) -> (r: u64) {
        *t
    }
}

impl HasDefaultPattern for XorPuzzle {
    open spec fn spec_default_pattern(self) -> u64 {
        0u64
    }

    fn puzzle_default_pattern(&self) -> (r: u64) {
        0
    }
}

impl HashablePatternPuzzle for XorPuzzle {
    open spec fn spec_pattern_hash_u64(self, p: u64) -> u64 {
        p
    }

    fn pattern_hash_u64(&self, pattern: &u64) -> (r: u64) {
        *pattern
    }
}

} // verus!
