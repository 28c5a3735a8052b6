use vstd::prelude::*;

verus! {

/// Whether bit `i` of `x` is set; only indices of board squares (0..64) count.
pub open spec fn bit_set(x: u64, i: int) -> bool {
    0 <= i < 64 && (x >> (i as u64)) & 1u64 == 1u64
}

/// The number of members of `s` among the square indices `0..n`.
pub open spec fn count_below(s: Set<int>, n: int) -> nat
    decreases n,
{
    if n <= 0 {
        0
    } else {
        count_below(s, n - 1) + if s.contains(n - 1) {
            1nat
        } else {
            0nat
        }
    }
}

/// The number of squares in a set of squares.
pub open spec fn square_count(s: Set<int>) -> nat {
    count_below(s, 64)
}

/// The lowest square index below `n` that belongs to `s`, if any.
pub open spec fn lowest_below(s: Set<int>, n: int) -> Option<int>
    decreases n,
{
    if n <= 0 {
        None
    } else {
        match lowest_below(s, n - 1) {
            Some(x) => Some(x),
            None => if s.contains(n - 1) {
                Some(n - 1)
            } else {
                None
            },
        }
    }
}

proof fn lemma_bit_zero(j: u64)
    requires
        j < 64,
    ensures
        (0u64 >> j) & 1u64 != 1u64,
{
    assert((0u64 >> j) & 1u64 != 1u64) by (bit_vector);
}

proof fn lemma_bit_or_single(x: u64, i: u64, j: u64)
    requires
        i < 64,
        j < 64,
    ensures
        ((x | (1u64 << i)) >> j) & 1u64 == 1u64 <==> ((x >> j) & 1u64 == 1u64 || i == j),
{
    assert(((x | (1u64 << i)) >> j) & 1u64 == 1u64 <==> ((x >> j) & 1u64 == 1u64 || i == j))
        by (bit_vector)
        requires
            i < 64,
            j < 64,
    ;
}

proof fn lemma_bit_and(x: u64, y: u64, j: u64)
    requires
        j < 64,
    ensures
        ((x & y) >> j) & 1u64 == 1u64 <==> ((x >> j) & 1u64 == 1u64 && (y >> j) & 1u64 == 1u64),
{
    assert(((x & y) >> j) & 1u64 == 1u64 <==> ((x >> j) & 1u64 == 1u64 && (y >> j) & 1u64
        == 1u64)) by (bit_vector)
        requires
            j < 64,
    ;
}

proof fn lemma_bit_or(x: u64, y: u64, j: u64)
    requires
        j < 64,
    ensures
        ((x | y) >> j) & 1u64 == 1u64 <==> ((x >> j) & 1u64 == 1u64 || (y >> j) & 1u64 == 1u64),
{
    assert(((x | y) >> j) & 1u64 == 1u64 <==> ((x >> j) & 1u64 == 1u64 || (y >> j) & 1u64
        == 1u64)) by (bit_vector)
        requires
            j < 64,
    ;
}

proof fn lemma_bit_and_not(x: u64, y: u64, j: u64)
    requires
        j < 64,
    ensures
        ((x & !y) >> j) & 1u64 == 1u64 <==> ((x >> j) & 1u64 == 1u64 && (y >> j) & 1u64
            != 1u64),
{
    assert(((x & !y) >> j) & 1u64 == 1u64 <==> ((x >> j) & 1u64 == 1u64 && (y >> j) & 1u64
        != 1u64)) by (bit_vector)
        requires
            j < 64,
    ;
}

/// A set of board squares, one bit per square (a1 = 0, b1 = 1, ..., h8 = 63).
#[derive(Clone, Copy, Debug, PartialEq, Eq, Structural)]
pub struct Bitboard {
    pub bits: u64,
}

impl View for Bitboard {
    type V = Set<int>;

    open spec fn view(&self) -> Set<int> {
        Set::new(|i: int| bit_set(self.bits, i))
    }
}

impl Bitboard {
    /// The empty set of squares.
    pub fn empty() -> (r: Bitboard)
        ensures
            r@ == Set::<int>::empty(),
    {
        let r = Bitboard { bits: 0u64 };
        proof {
            assert forall|i: int| !r@.contains(i) by {
                if 0 <= i < 64 {
                    lemma_bit_zero(i as u64);
                }
            }
        }
        assert(r@ =~= Set::<int>::empty());
        r
    }

    /// Whether square `sq` is in the set.
    pub fn contains(&self, sq: u32) -> (r: bool)
        requires
            sq < 64,
        ensures
            r == self@.contains(sq as int),
    {
        (self.bits >> (sq as u64)) & 1u64 == 1u64
    }

    /// The set with square `sq` added.
    pub fn with(self, sq: u32) -> (r: Bitboard)
        requires
            sq < 64,
        ensures
            r@ == self@.insert(sq as int),
    {
        let r = Bitboard { bits: self.bits | (1u64 << (sq as u64)) };
        proof {
            assert forall|i: int| r@.contains(i) == self@.insert(sq as int).contains(i) by {
                if 0 <= i < 64 {
                    lemma_bit_or_single(self.bits, sq as u64, i as u64);
                }
            }
        }
        assert(r@ =~= self@.insert(sq as int));
        r
    }

    /// The set holding the single square `sq`.
    pub fn single(sq: u32) -> (r: Bitboard)
        requires
            sq < 64,
        ensures
            r@ == Set::<int>::empty().insert(sq as int),
    {
        Bitboard::empty().with(sq)
    }

    /// The squares in both sets.
    pub fn and(self, other: Bitboard) -> (r: Bitboard)
        ensures
            r@ == self@.intersect(other@),
    {
        let r = Bitboard { bits: self.bits & other.bits };
        proof {
            assert forall|i: int| r@.contains(i) == self@.intersect(other@).contains(i) by {
                if 0 <= i < 64 {
                    lemma_bit_and(self.bits, other.bits, i as u64);
                }
            }
        }
        assert(r@ =~= self@.intersect(other@));
        r
    }

    /// The squares in either set.
    pub fn or(self, other: Bitboard) -> (r: Bitboard)
        ensures
            r@ == self@.union(other@),
    {
        let r = Bitboard { bits: self.bits | other.bits };
        proof {
            assert forall|i: int| r@.contains(i) == self@.union(other@).contains(i) by {
                if 0 <= i < 64 {
                    lemma_bit_or(self.bits, other.bits, i as u64);
                }
            }
        }
        assert(r@ =~= self@.union(other@));
        r
    }

    /// The squares of `self` that are not in `other`.
    pub fn without(self, other: Bitboard) -> (r: Bitboard)
        ensures
            r@ == self@.difference(other@),
    {
        let r = Bitboard { bits: self.bits & !other.bits };
        proof {
            assert forall|i: int| r@.contains(i) == self@.difference(other@).contains(i) by {
                if 0 <= i < 64 {
                    lemma_bit_and_not(self.bits, other.bits, i as u64);
                }
            }
        }
        assert(r@ =~= self@.difference(other@));
        r
    }

    /// Whether the set has no square.
    pub fn is_empty(&self) -> (r: bool)
        ensures
            r == (self@ == Set::<int>::empty()),
    {
        let mut i: u32 = 0;
        while i < 64
            invariant
                i <= 64,
                forall|j: int| 0 <= j < i ==> !self@.contains(j),
            decreases 64 - i,
        {
            if self.contains(i) {
                assert(self@.contains(i as int));
                return false;
            }
            i = i + 1;
        }
        assert(self@ =~= Set::<int>::empty());
        true
    }

    /// The number of squares in the set.
    pub fn count(&self) -> (r: u32)
        ensures
            r == square_count(self@),
            r <= 64,
    {
        let mut n: u32 = 0;
        let mut i: u32 = 0;
        while i < 64
            invariant
                i <= 64,
                n == count_below(self@, i as int),
                n <= i,
            decreases 64 - i,
        {
            if self.contains(i) {
                n = n + 1;
            }
            i = i + 1;
        }
        n
    }

    /// The lowest square of the set, if it has one.
    pub fn first(&self) -> (r: Option<u32>)
        ensures
            r matches Some(s) ==> s < 64,
            r matches Some(s) ==> lowest_below(self@, 64) == Some(s as int),
            r is None ==> lowest_below(self@, 64) is None,
    {
        let mut i: u32 = 0;
        while i < 64
            invariant
                i <= 64,
                lowest_below(self@, i as int) is None,
            decreases 64 - i,
        {
            if self.contains(i) {
                proof {
                    lemma_lowest_extends(self@, i as int + 1, 64);
                }
                return Some(i);
            }
            i = i + 1;
        }
        None
    }
}

/// Once the lowest member below `n` is found, it stays the lowest below any larger bound.
pub proof fn lemma_lowest_extends(s: Set<int>, n: int, m: int)
    requires
        n <= m,
        lowest_below(s, n) is Some,
    ensures
        lowest_below(s, m) == lowest_below(s, n),
    decreases m - n,
{
    if n < m {
        lemma_lowest_extends(s, n, m - 1);
    }
}

} // verus!
