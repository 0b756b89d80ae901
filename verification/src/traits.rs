//! The home of [`StackBlurrable`].

use vstd::prelude::*;

verus! {

/// The arithmetic a value must offer so that the streaming blur can average it.
///
/// A blurrable value is added to and subtracted from running totals, scaled by
/// an element count and divided by one. Implementations use signed or
/// explicitly wrapping arithmetic, so that no operation overflows, and should
/// have a significantly higher precision than the pixel format they stand for:
/// a value may be multiplied by hundreds or thousands before it is divided.
///
/// Each executable operation is tied to a specification function, and the
/// lemmas state the laws that tie these together: addition forms a commutative
/// group with `zero_value` as its neutral element, scaling by a count is
/// repeated addition, and dividing by one changes nothing.
pub trait StackBlurrable: Copy + Sized {
    /// The neutral element of addition.
    spec fn zero_value() -> Self;

    /// The sum of two values.
    spec fn plus(self, rhs: Self) -> Self;

    /// The difference of two values.
    spec fn minus(self, rhs: Self) -> Self;

    /// The value added up `count` times.
    spec fn times(self, count: nat) -> Self;

    /// The value divided by an element count.
    spec fn over(self, count: usize) -> Self;

    /// Whether the type can divide by `count`.
    spec fn can_divide_by(count: usize) -> bool;

    /// Returns the neutral element of addition.
    fn zero() -> (z: Self)
        ensures
            z == Self::zero_value(),
    ;

    /// Adds two values.
    fn add(self, rhs: Self) -> (sum: Self)
        ensures
            sum == self.plus(rhs),
    ;

    /// Adds `rhs` to the value in place.
    fn add_assign(&mut self, rhs: Self)
        ensures
            *final(self) == old(self).plus(rhs),
    ;

    /// Subtracts `rhs` from the value in place.
    fn sub_assign(&mut self, rhs: Self)
        ensures
            *final(self) == old(self).minus(rhs),
    ;

    /// Scales the value by an element count.
    fn mul(self, rhs: usize) -> (product: Self)
        ensures
            product == self.times(rhs as nat),
    ;

    /// Tests whether the type can divide by `count`.
    fn can_divide(count: usize) -> (can: bool)
        ensures
            can == Self::can_divide_by(count),
    ;

    /// Divides the value by an element count.
    fn div(self, rhs: usize) -> (quotient: Self)
        requires
            Self::can_divide_by(rhs),
        ensures
            quotient == self.over(rhs),
    ;

    /// Addition does not depend on the order of its operands.
    proof fn lemma_plus_commutes(a: Self, b: Self)
        ensures
            a.plus(b) == b.plus(a),
    ;

    /// Addition does not depend on how its operands are grouped.
    proof fn lemma_plus_associates(a: Self, b: Self, c: Self)
        ensures
            a.plus(b).plus(c) == a.plus(b.plus(c)),
    ;

    /// Adding the neutral element changes nothing.
    proof fn lemma_plus_zero(a: Self)
        ensures
            a.plus(Self::zero_value()) == a,
    ;

    /// Subtraction undoes addition.
    proof fn lemma_minus_undoes_plus(a: Self, b: Self)
        ensures
            a.plus(b).minus(b) == a,
    ;

    /// Scaling by zero gives the neutral element, and scaling by one more adds
    /// the value once more.
    proof fn lemma_times_unfolds(a: Self, count: nat)
        ensures
            a.times(0) == Self::zero_value(),
            a.times(count + 1) == a.times(count).plus(a),
    ;

    /// Every type can divide by one, and doing so changes nothing.
    proof fn lemma_over_one(a: Self)
        ensures
            Self::can_divide_by(1),
            a.over(1) == a,
    ;
}

} // verus!
