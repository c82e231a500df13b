//! Similarity scores as bit patterns.
//!
//! A score is an IEEE 754 single-precision number. The library never computes
//! with such numbers; it carries the 32 bits and reads from them what ranking
//! and thresholds need: whether the value is a number at all, where it stands
//! in the total order of all bit patterns, and how two numbers compare.

use vstd::prelude::*;

verus! {

/// A similarity score, held as the 32 bits of a single-precision number: one
/// sign bit, then eight exponent bits, then the 23 bits of the fraction.
#[derive(Clone, Copy, Debug, PartialEq, Eq, Structural)]
pub struct Score {
    pub bits: u32,
}

impl Score {
    /// The pattern without its sign bit.
    pub open spec fn magnitude(self) -> int {
        self.bits as int % 0x8000_0000
    }

    /// Whether the sign bit is set.
    pub open spec fn is_negative(self) -> bool {
        self.bits >= 0x8000_0000
    }

    /// Whether the pattern stands for no number: all exponent bits set and a
    /// fraction other than zero.
    pub open spec fn is_nan(self) -> bool {
        self.magnitude() > 0x7f80_0000
    }

    /// The place of the pattern in the total order of all patterns: negative
    /// values below positive ones, minus zero just below plus zero, and
    /// larger magnitudes further from zero.
    pub open spec fn rank_key(self) -> int {
        if self.is_negative() {
            -self.magnitude() - 1
        } else {
            self.magnitude()
        }
    }

    /// The place of a number among the numbers: as `rank_key`, but with both
    /// zeros at the same place.
    pub open spec fn numeric_key(self) -> int {
        if self.is_negative() {
            -self.magnitude()
        } else {
            self.magnitude()
        }
    }

    /// `self < other` as numbers; false when either is no number.
    pub open spec fn is_below(self, other: Score) -> bool {
        !self.is_nan() && !other.is_nan() && self.numeric_key() < other.numeric_key()
    }

    /// `self >= other` as numbers; false when either is no number.
    pub open spec fn is_at_least(self, other: Score) -> bool {
        !self.is_nan() && !other.is_nan() && self.numeric_key() >= other.numeric_key()
    }

    /// The score itself, or plus zero in place of a pattern that is no number.
    pub open spec fn sanitized(self) -> Score {
        if self.is_nan() {
            Score { bits: 0 }
        } else {
            self
        }
    }

    /// The score with the given bits.
    pub fn from_bits(bits: u32) -> (s: Score)
        ensures
            s.bits == bits,
    {
        Score { bits }
    }

    /// The bits of the score.
    pub fn to_bits(&self) -> (bits: u32)
        ensures
            bits == self.bits,
    {
        self.bits
    }

    /// The score of plus zero.
    pub fn zero() -> (s: Score)
        ensures
            s.bits == 0,
            !s.is_nan(),
            s.rank_key() == 0,
    {
        Score { bits: 0 }
    }

    fn magnitude_bits(&self) -> (m: u32)
        ensures
            m == self.magnitude(),
    {
        if self.bits >= 0x8000_0000 {
            self.bits - 0x8000_0000
        } else {
            self.bits
        }
    }

    /// Whether the score is no number.
    pub fn nan(&self) -> (r: bool)
        ensures
            r == self.is_nan(),
    {
        self.magnitude_bits() > 0x7f80_0000
    }

    /// The place of the score in the total order.
    pub fn key(&self) -> (k: i64)
        ensures
            k == self.rank_key(),
    {
        let m: i64 = self.magnitude_bits() as i64;
        if self.bits >= 0x8000_0000 {
            -m - 1
        } else {
            m
        }
    }

    fn number_key(&self) -> (k: i64)
        ensures
            k == self.numeric_key(),
    {
        let m: i64 = self.magnitude_bits() as i64;
        if self.bits >= 0x8000_0000 {
            -m
        } else {
            m
        }
    }

    /// Whether `self < other` as numbers.
    pub fn below(&self, other: &Score) -> (r: bool)
        ensures
            r == self.is_below(*other),
    {
        !self.nan() && !other.nan() && self.number_key() < other.number_key()
    }

    /// Whether `self >= other` as numbers.
    pub fn at_least(&self, other: &Score) -> (r: bool)
        ensures
            r == self.is_at_least(*other),
    {
        !self.nan() && !other.nan() && self.number_key() >= other.number_key()
    }

    /// The score, with plus zero in place of a pattern that is no number.
    pub fn sanitize(&self) -> (s: Score)
        ensures
            s == self.sanitized(),
            !s.is_nan(),
    {
        if self.nan() {
            Score { bits: 0 }
        } else {
            *self
        }
    }
}

/// Two numbers compare one way or the other, never both.
pub proof fn lemma_below_or_at_least(a: Score, b: Score)
    requires
        !a.is_nan(),
        !b.is_nan(),
    ensures
        a.is_below(b) != a.is_at_least(b),
{
}

/// The total order refines the order of the numbers: a number below another
/// also ranks below it.
pub proof fn lemma_below_ranks_below(a: Score, b: Score)
    requires
        a.is_below(b),
    ensures
        a.rank_key() < b.rank_key(),
{
}

/// Two scores share a place in the total order only if they are the same bits.
pub proof fn lemma_rank_key_injective(a: Score, b: Score)
    requires
        a.rank_key() == b.rank_key(),
    ensures
        a == b,
{
}

} // verus!
