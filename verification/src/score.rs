//! Scores of sorted-set members.
//!
//! A score is a 64-bit IEEE-754 number that is not a NaN. The engine never
//! computes with it: it keeps the bit pattern, by which scores are ordered,
//! and the decimal text that replies carry. Reading a score from text and
//! rendering it are left to the embedding program.

use vstd::prelude::*;
use vstd::string::*;

verus! {

/// The sign bit of a 64-bit pattern.
pub const SIGN_BIT: u64 = 0x8000_0000_0000_0000;

/// The pattern of positive infinity: all exponent bits set, no fraction bit.
pub const INFINITY_BITS: u64 = 0x7ff0_0000_0000_0000;

/// The pattern of negative infinity.
pub const NEG_INFINITY_BITS: u64 = 0xfff0_0000_0000_0000;

/// The pattern without its sign bit.
pub open spec fn magnitude(bits: u64) -> int {
    if bits >= SIGN_BIT {
        bits - SIGN_BIT
    } else {
        bits as int
    }
}

/// Whether the pattern is a number: anything but a NaN, whose magnitude lies
/// above that of infinity.
pub open spec fn is_number(bits: u64) -> bool {
    magnitude(bits) <= INFINITY_BITS
}

/// Place of the pattern in the IEEE-754 total order: patterns with the sign
/// bit come first, the larger magnitude lower, so that negative zero stands
/// directly below positive zero.
pub open spec fn rank(bits: u64) -> int {
    if bits >= SIGN_BIT {
        -magnitude(bits) - 1
    } else {
        bits as int
    }
}

/// A score: the bit pattern of a number and its decimal text.
#[derive(Debug, PartialEq)]
pub struct Score {
    bits: u64,
    text: String,
}

impl View for Score {
    type V = (u64, Seq<char>);

    closed spec fn view(&self) -> (u64, Seq<char>) {
        (self.bits, self.text@)
    }
}

impl Score {
    #[verifier::type_invariant]
    spec fn number(self) -> bool {
        is_number(self.bits)
    }

    /// A score from its bit pattern and its decimal text, unless the pattern
    /// is a NaN.
    pub fn new(bits: u64, text: String) -> (r: Option<Score>)
        ensures
            r is Some <==> is_number(bits),
            r is Some ==> r->0@ == (bits, text@),
    {
        let magnitude = if bits >= SIGN_BIT { bits - SIGN_BIT } else { bits };
        if magnitude <= INFINITY_BITS {
            Some(Score { bits, text })
        } else {
            None
        }
    }

    /// The bit pattern.
    pub fn bits(&self) -> (r: u64)
        ensures
            r == self@.0,
            is_number(r),
    {
        proof {
            use_type_invariant(self);
        }
        self.bits
    }

    /// The decimal text.
    pub fn text(&self) -> (r: &String)
        ensures
            r@ == self@.1,
    {
        &self.text
    }

    /// Whether `self` stands at or before `other` in the total order.
    pub fn at_most(&self, other: &Score) -> (r: bool)
        ensures
            r == (rank(self@.0) <= rank(other@.0)),
    {
        rank_of(self.bits) <= rank_of(other.bits)
    }
}

impl Clone for Score {
    fn clone(&self) -> (r: Score)
        ensures
            r@ == self@,
    {
        proof {
            use_type_invariant(self);
        }
        Score { bits: self.bits, text: self.text.clone() }
    }
}

/// Place of the pattern in the total order, as a machine integer.
pub fn rank_of(bits: u64) -> (r: i64)
    ensures
        r == rank(bits),
{
    if bits >= SIGN_BIT {
        let magnitude: u64 = bits - SIGN_BIT;
        if magnitude == 0x7fff_ffff_ffff_ffff {
            i64::MIN
        } else {
            -(magnitude as i64) - 1
        }
    } else {
        bits as i64
    }
}

/// Every number stands between the two infinities.
pub proof fn lemma_numbers_between_infinities(bits: u64)
    requires
        is_number(bits),
    ensures
        rank(NEG_INFINITY_BITS) <= rank(bits) <= rank(INFINITY_BITS),
{
}

} // verus!
