use crate::traits::StackBlurrable;
use vstd::prelude::*;

verus! {

/// A scalar accumulator: an unsigned 32-bit integer whose arithmetic wraps.
#[derive(Copy, Clone, Eq, PartialEq, Debug)]
pub struct BlurU32(pub u32);

/// The residue of `n` modulo 2^32, as a `u32`.
pub open spec fn wrap_u32(n: int) -> u32 {
    (n % 0x1_0000_0000) as u32
}

/// What remains of an element count when it is cut down to 32 bits.
pub open spec fn low_word(count: usize) -> u32 {
    (count as int % 0x1_0000_0000) as u32
}

impl Default for BlurU32 {
    /// The accumulator that holds zero.
    fn default() -> (value: Self)
        ensures
            value == Self::zero_value(),
    {
        BlurU32(0)
    }
}

impl BlurU32 {
    /// Subtracts two values, wrapping around below zero.
    pub fn sub(self, rhs: Self) -> (difference: Self)
        ensures
            difference == self.minus(rhs),
    {
        Self(self.0.wrapping_sub(rhs.0))
    }
}

/// Cuts an element count down to its low 32 bits.
pub fn truncate_count(count: usize) -> (low: u32)
    ensures
        low == low_word(count),
{
    let low = #[verifier::truncate] (count as u32);
    assert(low == (count as int % 0x1_0000_0000) as u32) by (bit_vector)
        requires low == #[verifier::truncate] (count as u32);
    low
}

/// The arithmetic of a `u32` that wraps around at 2^32. Division truncates,
/// and a count is cut down to its low 32 bits before the value is scaled or
/// divided by it.
impl StackBlurrable for BlurU32 {
    open spec fn zero_value() -> Self {
        BlurU32(0)
    }

    open spec fn plus(self, rhs: Self) -> Self {
        BlurU32(wrap_u32(self.0 + rhs.0))
    }

    open spec fn minus(self, rhs: Self) -> Self {
        BlurU32(wrap_u32(self.0 - rhs.0))
    }

    open spec fn times(self, count: nat) -> Self {
        BlurU32(wrap_u32(self.0 * count))
    }

    open spec fn over(self, count: usize) -> Self {
        BlurU32(self.0 / low_word(count))
    }

    open spec fn can_divide_by(count: usize) -> bool {
        low_word(count) != 0
    }

    fn zero() -> (z: Self) {
        BlurU32(0)
    }

    fn add(self, rhs: Self) -> (sum: Self) {
        Self(self.0.wrapping_add(rhs.0))
    }

    fn add_assign(&mut self, rhs: Self) {
        self.0 = self.0.wrapping_add(rhs.0);
    }

    fn sub_assign(&mut self, rhs: Self) {
        self.0 = self.0.wrapping_sub(rhs.0);
    }

    fn mul(self, rhs: usize) -> (product: Self) {
        let low = truncate_count(rhs);
        proof {
            vstd::arithmetic::div_mod::lemma_mul_mod_noop_right(
                self.0 as int,
                rhs as int,
                0x1_0000_0000,
            );
        }
        Self(self.0.wrapping_mul(low))
    }

    fn can_divide(count: usize) -> (can: bool) {
        truncate_count(count) != 0
    }

    fn div(self, rhs: usize) -> (quotient: Self) {
        Self(self.0 / truncate_count(rhs))
    }

    proof fn lemma_plus_commutes(a: Self, b: Self) {
    }

    proof fn lemma_plus_associates(a: Self, b: Self, c: Self) {
    }

    proof fn lemma_plus_zero(a: Self) {
    }

    proof fn lemma_minus_undoes_plus(a: Self, b: Self) {
    }

    proof fn lemma_times_unfolds(a: Self, count: nat) {
        assert(a.0 * (count + 1) == a.0 * count + a.0) by (nonlinear_arith);
        vstd::arithmetic::div_mod::lemma_add_mod_noop(
            a.0 * count,
            a.0 as int,
            0x1_0000_0000,
        );
    }

    proof fn lemma_over_one(a: Self) {
        assert(low_word(1) == 1);
        assert(a.0 / 1u32 == a.0);
    }
}

} // verus!
