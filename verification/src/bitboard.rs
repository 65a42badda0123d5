use vstd::prelude::*;
use vstd::set_lib::lemma_int_range;
use crate::error::CoreError;

verus! {

/// Whether bit `i` of `v` is set.
pub open spec fn bit(v: u64, i: u64) -> bool {
    (v >> i) & 1 == 1
}

/// The squares of the board, as a set of indices.
pub open spec fn all_squares() -> Set<int> {
    Set::new(|i: int| 0 <= i < 64)
}

pub proof fn lemma_bit_zero(i: u64)
    by (bit_vector)
    requires
        i < 64,
    ensures
        !bit(0, i),
{
}

pub proof fn lemma_bit_set(v: u64, i: u64, j: u64)
    by (bit_vector)
    requires
        i < 64,
        j < 64,
    ensures
        bit(v | (1u64 << i), j) == (bit(v, j) || i == j),
{
}

pub proof fn lemma_bit_clear(v: u64, i: u64, j: u64)
    by (bit_vector)
    requires
        i < 64,
        j < 64,
    ensures
        bit(v & !(1u64 << i), j) == (bit(v, j) && i != j),
{
}

pub proof fn lemma_bit_test(v: u64, i: u64)
    by (bit_vector)
    requires
        i < 64,
    ensures
        (v & (1u64 << i) != 0) == bit(v, i),
{
}

pub proof fn lemma_bit_ops(a: u64, b: u64, j: u64)
    by (bit_vector)
    requires
        j < 64,
    ensures
        bit(a & b, j) == (bit(a, j) && bit(b, j)),
        bit(a | b, j) == (bit(a, j) || bit(b, j)),
        bit(a ^ b, j) == (bit(a, j) != bit(b, j)),
        bit(!a, j) == !bit(a, j),
{
}

/// The word whose set bits are those below `k`.
pub open spec fn low_mask(k: u64) -> u64 {
    !(0xffff_ffff_ffff_ffffu64 << k)
}

/// Words that agree below bit `k` and at bit `k` agree below bit `k + 1`.
proof fn lemma_low_bits_step(a: u64, b: u64, k: u64, n: u64)
    by (bit_vector)
    requires
        k < 64,
        n == k + 1,
        bit(a, k) == bit(b, k),
        a & low_mask(k) == b & low_mask(k),
    ensures
        k < 63 ==> a & low_mask(n) == b & low_mask(n),
        k == 63 ==> a == b,
{
}

proof fn lemma_low_bits_none(a: u64, b: u64)
    by (bit_vector)
    ensures
        a & low_mask(0) == b & low_mask(0),
{
}

proof fn lemma_low_bits_agree(a: u64, b: u64, k: u64)
    requires
        k < 64,
        forall|j: u64| j < 64 ==> bit(a, j) == bit(b, j),
    ensures
        a & low_mask(k) == b & low_mask(k),
    decreases k,
{
    if k == 0 {
        lemma_low_bits_none(a, b);
    } else {
        let p = (k - 1) as u64;
        lemma_low_bits_agree(a, b, p);
        lemma_low_bits_step(a, b, p, k);
    }
}

/// Two words with the same bits are the same word.
pub proof fn lemma_bits_decide(a: u64, b: u64)
    requires
        forall|j: u64| j < 64 ==> bit(a, j) == bit(b, j),
    ensures
        a == b,
{
    lemma_low_bits_agree(a, b, 63);
    lemma_low_bits_step(a, b, 63, 64);
}

/// A set of board squares, held in one 64-bit word: bit `i` stands for square `i`.
#[derive(PartialEq, Eq, Structural, PartialOrd, Clone, Copy, Debug, Hash)]
pub struct BitBoard(pub u64);

impl View for BitBoard {
    type V = Set<int>;

    /// The squares whose bit is set.
    open spec fn view(&self) -> Set<int> {
        Set::new(|i: int| 0 <= i < 64 && bit(self.0, i as u64))
    }
}

impl Default for BitBoard {
    fn default() -> (r: Self)
        ensures
            r.0 == 0,
            r@ == Set::<int>::empty(),
    {
        BitBoard::new()
    }
}

impl BitBoard {
    /// The squares of `self` below `n`.
    pub open spec fn below(self, n: int) -> Set<int> {
        Set::new(|i: int| 0 <= i < n && self@.contains(i))
    }

    /// A mask's squares all lie on the board, so there are finitely many.
    pub proof fn lemma_view_finite(self)
        ensures
            self@.finite(),
            self@.subset_of(all_squares()),
            self@.len() <= 64,
    {
        lemma_int_range(0, 64);
        assert(all_squares() =~= vstd::set_lib::set_int_range(0, 64));
        assert(self@.subset_of(all_squares()));
        vstd::set_lib::lemma_len_subset(self@, all_squares());
    }

    /// Masks with the same squares are equal.
    pub proof fn lemma_view_decides(self, other: BitBoard)
        requires
            self@ == other@,
        ensures
            self == other,
    {
        assert forall|j: u64| j < 64 implies bit(self.0, j) == bit(other.0, j) by {
            let i = j as int;
            assert(self@.contains(i) <==> bit(self.0, i as u64));
            assert(other@.contains(i) <==> bit(other.0, i as u64));
        }
        lemma_bits_decide(self.0, other.0);
    }

    /// The empty mask.
    pub fn new() -> (r: Self)
        ensures
            r.0 == 0,
            r@ == Set::<int>::empty(),
    {
        let r = BitBoard(0);
        proof {
            assert forall|i: int| !r@.contains(i) by {
                if 0 <= i < 64 {
                    lemma_bit_zero(i as u64);
                }
            }
            assert(r@ =~= Set::<int>::empty());
        }
        r
    }

    /// Whether square `i` is in the mask, for an index known to be on the board.
    pub(crate) fn holds(&self, i: usize) -> (r: bool)
        requires
            i < 64,
        ensures
            r == self@.contains(i as int),
    {
        proof {
            lemma_bit_test(self.0, i as u64);
        }
        (self.0 & (1u64 << (i as u64))) != 0
    }

    /// The mask with square `i` added, for an index known to be on the board.
    pub(crate) fn with(self, i: usize) -> (r: BitBoard)
        requires
            i < 64,
        ensures
            r@ == self@.insert(i as int),
            r.0 == self.0 | (1u64 << (i as u64)),
    {
        let r = BitBoard(self.0 | (1u64 << (i as u64)));
        proof {
            assert forall|j: int| r@.contains(j) == self@.insert(i as int).contains(j) by {
                if 0 <= j < 64 {
                    lemma_bit_set(self.0, i as u64, j as u64);
                }
            }
            assert(r@ =~= self@.insert(i as int));
        }
        r
    }

    /// The mask with square `i` taken out, for an index known to be on the board.
    pub(crate) fn without(self, i: usize) -> (r: BitBoard)
        requires
            i < 64,
        ensures
            r@ == self@.remove(i as int),
            r.0 == self.0 & !(1u64 << (i as u64)),
    {
        let r = BitBoard(self.0 & !(1u64 << (i as u64)));
        proof {
            assert forall|j: int| r@.contains(j) == self@.remove(i as int).contains(j) by {
                if 0 <= j < 64 {
                    lemma_bit_clear(self.0, i as u64, j as u64);
                }
            }
            assert(r@ =~= self@.remove(i as int));
        }
        r
    }

    /// Adds square `position` to the mask.
    pub fn set_bit(&mut self, position: usize) -> (r: Result<(), CoreError>)
        ensures
            position < 64 ==> r is Ok && final(self)@ == old(self)@.insert(position as int)
                && final(self).0 == old(self).0 | (1u64 << (position as u64)),
            position >= 64 ==> r == Err::<(), CoreError>(CoreError::IndexOutOfRange)
                && *final(self) == *old(self),
    {
        if position >= 64 {
            return Err(CoreError::IndexOutOfRange);
        }
        *self = self.with(position);
        Ok(())
    }

    /// Whether square `position` is in the mask.
    pub fn is_bit_set(&self, position: usize) -> (r: Result<bool, CoreError>)
        ensures
            position < 64 ==> r == Ok::<bool, CoreError>(self@.contains(position as int)),
            position >= 64 ==> r == Err::<bool, CoreError>(CoreError::IndexOutOfRange),
    {
        if position >= 64 {
            return Err(CoreError::IndexOutOfRange);
        }
        Ok(self.holds(position))
    }

    /// Takes square `position` out of the mask.
    pub fn unset_bit(&mut self, position: usize) -> (r: Result<(), CoreError>)
        ensures
            position < 64 ==> r is Ok && final(self)@ == old(self)@.remove(position as int)
                && final(self).0 == old(self).0 & !(1u64 << (position as u64)),
            position >= 64 ==> r == Err::<(), CoreError>(CoreError::IndexOutOfRange)
                && *final(self) == *old(self),
    {
        if position >= 64 {
            return Err(CoreError::IndexOutOfRange);
        }
        *self = self.without(position);
        Ok(())
    }

    /// How many squares the mask holds.
    pub fn count_set(&self) -> (n: u32)
        ensures
            n == self@.len(),
            n <= 64,
    {
        let mut n: u32 = 0;
        let mut i: usize = 0;
        proof {
            assert(self.below(0) =~= Set::<int>::empty());
        }
        while i < 64
            invariant
                i <= 64,
                n <= i,
                self.below(i as int).finite(),
                n == self.below(i as int).len(),
            decreases 64 - i,
        {
            proof {
                if self@.contains(i as int) {
                    assert(self.below(i + 1) =~= self.below(i as int).insert(i as int));
                } else {
                    assert(self.below(i + 1) =~= self.below(i as int));
                }
            }
            if self.holds(i) {
                n = n + 1;
            }
            i = i + 1;
        }
        proof {
            assert(self.below(64) =~= self@);
        }
        n
    }

    /// The lowest square of the mask, if it has one.
    pub fn lowest_set_index(&self) -> (r: Option<usize>)
        ensures
            match r {
                Some(i) => self@.contains(i as int) && forall|j: int|
                    self@.contains(j) ==> i <= j,
                None => self@ == Set::<int>::empty(),
            },
    {
        let mut i: usize = 0;
        while i < 64
            invariant
                i <= 64,
                forall|j: int| 0 <= j < i ==> !self@.contains(j),
            decreases 64 - i,
        {
            if self.holds(i) {
                return Some(i);
            }
            i = i + 1;
        }
        proof {
            assert(self@ =~= Set::<int>::empty());
        }
        None
    }

    /// The squares of the mask, lowest first.
    pub fn iterate(&self) -> (v: Vec<usize>)
        ensures
            forall|a: int, b: int| 0 <= a < b < v.len() ==> v[a] < v[b],
            forall|k: int| 0 <= k < v.len() ==> self@.contains(#[trigger] v[k] as int),
            forall|i: int| self@.contains(i) ==> v@.contains(i as usize),
            v.len() == self@.len(),
    {
        let mut v: Vec<usize> = Vec::new();
        let mut i: usize = 0;
        proof {
            assert(self.below(0) =~= Set::<int>::empty());
        }
        while i < 64
            invariant
                i <= 64,
                forall|a: int, b: int| 0 <= a < b < v.len() ==> v[a] < v[b],
                forall|k: int|
                    0 <= k < v.len() ==> self@.contains(#[trigger] v[k] as int) && v[k] < i,
                forall|j: int| 0 <= j < i && self@.contains(j) ==> v@.contains(j as usize),
                self.below(i as int).finite(),
                v.len() == self.below(i as int).len(),
            decreases 64 - i,
        {
            proof {
                if self@.contains(i as int) {
                    assert(self.below(i + 1) =~= self.below(i as int).insert(i as int));
                } else {
                    assert(self.below(i + 1) =~= self.below(i as int));
                }
            }
            if self.holds(i) {
                let ghost before = v@;
                v.push(i);
                proof {
                    assert(v@[before.len() as int] == i);
                    assert forall|j: int| 0 <= j < i + 1 && self@.contains(j) implies v@.contains(
                        j as usize,
                    ) by {
                        if j < i {
                            let k = choose|k: int| 0 <= k < before.len() && before[k] == j as usize;
                            assert(v@[k] == j as usize);
                        }
                    }
                }
            }
            i = i + 1;
        }
        proof {
            assert(self.below(64) =~= self@);
        }
        v
    }

    /// The squares that both masks hold.
    pub fn and(self, other: BitBoard) -> (r: BitBoard)
        ensures
            r.0 == self.0 & other.0,
            r@ == self@.intersect(other@),
    {
        let r = BitBoard(self.0 & other.0);
        proof {
            assert forall|j: int| r@.contains(j) == self@.intersect(other@).contains(j) by {
                if 0 <= j < 64 {
                    lemma_bit_ops(self.0, other.0, j as u64);
                }
            }
            assert(r@ =~= self@.intersect(other@));
        }
        r
    }

    /// The squares that either mask holds.
    pub fn or(self, other: BitBoard) -> (r: BitBoard)
        ensures
            r.0 == self.0 | other.0,
            r@ == self@.union(other@),
    {
        let r = BitBoard(self.0 | other.0);
        proof {
            assert forall|j: int| r@.contains(j) == self@.union(other@).contains(j) by {
                if 0 <= j < 64 {
                    lemma_bit_ops(self.0, other.0, j as u64);
                }
            }
            assert(r@ =~= self@.union(other@));
        }
        r
    }

    /// The squares that exactly one of the two masks holds.
    pub fn xor(self, other: BitBoard) -> (r: BitBoard)
        ensures
            r.0 == self.0 ^ other.0,
            r@ == self@.difference(other@).union(other@.difference(self@)),
    {
        let r = BitBoard(self.0 ^ other.0);
        proof {
            let want = self@.difference(other@).union(other@.difference(self@));
            assert forall|j: int| r@.contains(j) == want.contains(j) by {
                if 0 <= j < 64 {
                    lemma_bit_ops(self.0, other.0, j as u64);
                }
            }
            assert(r@ =~= want);
        }
        r
    }

    /// The squares of the board that the mask does not hold.
    pub fn not(self) -> (r: BitBoard)
        ensures
            r.0 == !self.0,
            r@ == all_squares().difference(self@),
    {
        let r = BitBoard(!self.0);
        proof {
            assert forall|j: int| r@.contains(j) == all_squares().difference(self@).contains(
                j,
            ) by {
                if 0 <= j < 64 {
                    lemma_bit_ops(self.0, self.0, j as u64);
                }
            }
            assert(r@ =~= all_squares().difference(self@));
        }
        r
    }
}

} // verus!
