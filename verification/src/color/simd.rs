use crate::color::serial::{wrap_u32, BlurU32};
use crate::traits::StackBlurrable;
use crate::arrays::{lanes_from, lemma_lanes_from};
use vstd::prelude::*;

verus! {

/// A lane-packed accumulator: `N` unsigned 32-bit integers that go through the
/// same arithmetic side by side, each lane on its own.
#[derive(Copy, Clone, Eq, PartialEq, Debug)]
#[allow(non_camel_case_types)]
pub struct u32xN<const N: usize>(pub [u32; N]);

impl<const N: usize> Default for u32xN<N> {
    /// The accumulator whose lanes all hold zero.
    fn default() -> (value: Self)
        ensures
            value == Self::zero_value(),
    {
        Self::zero()
    }
}

impl<const N: usize> u32xN<N> {
    /// The value of lane `i`.
    pub open spec fn lane(self, i: int) -> u32 {
        self.0[i]
    }

    /// Subtracts lane by lane, wrapping around below zero.
    pub fn sub(self, rhs: Self) -> (difference: Self)
        ensures
            difference == self.minus(rhs),
    {
        let mut lanes = self.0;
        let mut i: usize = 0;
        while i < N
            invariant
                i <= N,
                forall|j: int| 0 <= j < i ==> #[trigger] lanes[j] == wrap_u32(self.0[j] - rhs.0[j]),
                forall|j: int| i <= j < N ==> #[trigger] lanes[j] == self.0[j],
            decreases N - i,
        {
            lanes[i] = self.0[i].wrapping_sub(rhs.0[i]);
            i += 1;
        }
        proof {
            lemma_lanes_from::<u32, N>(|j: int| wrap_u32(self.0[j] - rhs.0[j]));
            assert(lanes =~= self.minus(rhs).0);
        }
        u32xN(lanes)
    }

    /// Lane `i` of a sum, a difference, a product and a quotient, and of the
    /// neutral element.
    pub proof fn lemma_lanes(self, rhs: Self, count: nat, divisor: usize, i: int)
        requires
            0 <= i < N,
        ensures
            Self::zero_value().lane(i) == 0,
            self.plus(rhs).lane(i) == wrap_u32(self.lane(i) + rhs.lane(i)),
            self.minus(rhs).lane(i) == wrap_u32(self.lane(i) - rhs.lane(i)),
            self.times(count).lane(i) == wrap_u32(self.lane(i) * count),
            self.over(divisor).lane(i) == (self.lane(i) as int / divisor as int) as u32,
    {
        lemma_lanes_from::<u32, N>(|j: int| 0u32);
        lemma_lanes_from::<u32, N>(|j: int| wrap_u32(self.0[j] + rhs.0[j]));
        lemma_lanes_from::<u32, N>(|j: int| wrap_u32(self.0[j] - rhs.0[j]));
        lemma_lanes_from::<u32, N>(|j: int| wrap_u32(self.0[j] * count));
        lemma_lanes_from::<u32, N>(|j: int| (self.0[j] as int / divisor as int) as u32);
    }

    /// Every lane goes through the arithmetic of a scalar accumulator: lane
    /// `i` of a sum, a difference and a product is what `BlurU32` computes
    /// from the lanes, and so is lane `i` of a quotient when the count fits in
    /// 32 bits.
    pub proof fn lemma_lane_as_scalar(self, rhs: Self, count: nat, divisor: usize, i: int)
        requires
            0 <= i < N,
            0 < divisor <= u32::MAX,
        ensures
            BlurU32(Self::zero_value().lane(i)) == BlurU32::zero_value(),
            BlurU32(self.plus(rhs).lane(i)) == BlurU32(self.lane(i)).plus(BlurU32(rhs.lane(i))),
            BlurU32(self.minus(rhs).lane(i)) == BlurU32(self.lane(i)).minus(BlurU32(rhs.lane(i))),
            BlurU32(self.times(count).lane(i)) == BlurU32(self.lane(i)).times(count),
            BlurU32(self.over(divisor).lane(i)) == BlurU32(self.lane(i)).over(divisor),
    {
        self.lemma_lanes(rhs, count, divisor, i);
        assert(crate::color::serial::low_word(divisor) == divisor);
    }

    /// Two values with the same lanes are the same value.
    pub proof fn lemma_same_lanes(self, other: Self)
        requires
            forall|i: int| 0 <= i < N ==> self.lane(i) == other.lane(i),
        ensures
            self == other,
    {
        assert forall|i: int| 0 <= i < N implies self.0[i] == other.0[i] by {
            assert(self.lane(i) == other.lane(i));
        }
        assert(self.0 =~= other.0);
    }
}

/// Lane by lane, the arithmetic of a `u32` that wraps around at 2^32. A
/// value is scaled by the low 32 bits of the count, but divided by the whole
/// count, with ordinary truncating division.
impl<const N: usize> StackBlurrable for u32xN<N> {
    open spec fn zero_value() -> Self {
        u32xN(lanes_from(|j: int| 0u32))
    }

    open spec fn plus(self, rhs: Self) -> Self {
        u32xN(lanes_from(|j: int| wrap_u32(self.0[j] + rhs.0[j])))
    }

    open spec fn minus(self, rhs: Self) -> Self {
        u32xN(lanes_from(|j: int| wrap_u32(self.0[j] - rhs.0[j])))
    }

    open spec fn times(self, count: nat) -> Self {
        u32xN(lanes_from(|j: int| wrap_u32(self.0[j] * count)))
    }

    open spec fn over(self, count: usize) -> Self {
        u32xN(lanes_from(|j: int| (self.0[j] as int / count as int) as u32))
    }

    open spec fn can_divide_by(count: usize) -> bool {
        count != 0
    }

    fn zero() -> (z: Self) {
        let lanes = [0u32;N];
        proof {
            lemma_lanes_from::<u32, N>(|j: int| 0u32);
            assert(lanes == vstd::array::spec_array_fill_for_copy_type::<u32, N>(0u32));
            assert forall|j: int| 0 <= j < N implies lanes[j] == Self::zero_value().0[j] by {
                assert(lanes@[j] == 0u32);
            }
            assert(lanes =~= Self::zero_value().0);
        }
        u32xN(lanes)
    }

    fn add(self, rhs: Self) -> (sum: Self) {
        let mut lanes = self.0;
        let mut i: usize = 0;
        while i < N
            invariant
                i <= N,
                forall|j: int| 0 <= j < i ==> #[trigger] lanes[j] == wrap_u32(self.0[j] + rhs.0[j]),
                forall|j: int| i <= j < N ==> #[trigger] lanes[j] == self.0[j],
            decreases N - i,
        {
            lanes[i] = self.0[i].wrapping_add(rhs.0[i]);
            i += 1;
        }
        proof {
            lemma_lanes_from::<u32, N>(|j: int| wrap_u32(self.0[j] + rhs.0[j]));
            assert(lanes =~= self.plus(rhs).0);
        }
        u32xN(lanes)
    }

    fn add_assign(&mut self, rhs: Self) {
        *self = self.add(rhs);
    }

    fn sub_assign(&mut self, rhs: Self) {
        *self = self.sub(rhs);
    }

    fn mul(self, rhs: usize) -> (product: Self) {
        let low = crate::color::serial::truncate_count(rhs);
        let mut lanes = self.0;
        let mut i: usize = 0;
        while i < N
            invariant
                i <= N,
                low == crate::color::serial::low_word(rhs),
                forall|j: int| 0 <= j < i ==> #[trigger] lanes[j] == wrap_u32(self.0[j] * rhs),
                forall|j: int| i <= j < N ==> #[trigger] lanes[j] == self.0[j],
            decreases N - i,
        {
            proof {
                vstd::arithmetic::div_mod::lemma_mul_mod_noop_right(
                    self.0[i as int] as int,
                    rhs as int,
                    0x1_0000_0000,
                );
            }
            lanes[i] = self.0[i].wrapping_mul(low);
            i += 1;
        }
        proof {
            lemma_lanes_from::<u32, N>(|j: int| wrap_u32(self.0[j] * (rhs as nat)));
            assert(lanes =~= self.times(rhs as nat).0);
        }
        u32xN(lanes)
    }

    fn can_divide(count: usize) -> (can: bool) {
        count != 0
    }

    fn div(self, rhs: usize) -> (quotient: Self) {
        let mut lanes = self.0;
        let mut i: usize = 0;
        while i < N
            invariant
                i <= N,
                rhs != 0,
                forall|j: int|
                    0 <= j < i ==> #[trigger] lanes[j] == (self.0[j] as int / rhs as int) as u32,
                forall|j: int| i <= j < N ==> #[trigger] lanes[j] == self.0[j],
            decreases N - i,
        {
            let lane = self.0[i] as usize / rhs;
            assert(lane <= self.0[i as int]) by (nonlinear_arith)
                requires
                    lane == self.0[i as int] as int / rhs as int,
                    rhs > 0,
            ;
            lanes[i] = lane as u32;
            i += 1;
        }
        proof {
            lemma_lanes_from::<u32, N>(|j: int| (self.0[j] as int / rhs as int) as u32);
            assert(lanes =~= self.over(rhs).0);
        }
        u32xN(lanes)
    }

    proof fn lemma_plus_commutes(a: Self, b: Self) {
        assert forall|i: int| 0 <= i < N implies a.plus(b).lane(i) == b.plus(a).lane(i) by {
            a.lemma_lanes(b, 0, 1, i);
            b.lemma_lanes(a, 0, 1, i);
        }
        a.plus(b).lemma_same_lanes(b.plus(a));
    }

    proof fn lemma_plus_associates(a: Self, b: Self, c: Self) {
        assert forall|i: int| 0 <= i < N implies a.plus(b).plus(c).lane(i) == a.plus(
            b.plus(c),
        ).lane(i) by {
            a.lemma_lanes(b, 0, 1, i);
            a.plus(b).lemma_lanes(c, 0, 1, i);
            b.lemma_lanes(c, 0, 1, i);
            a.lemma_lanes(b.plus(c), 0, 1, i);
            BlurU32::lemma_plus_associates(
                BlurU32(a.lane(i)),
                BlurU32(b.lane(i)),
                BlurU32(c.lane(i)),
            );
        }
        a.plus(b).plus(c).lemma_same_lanes(a.plus(b.plus(c)));
    }

    proof fn lemma_plus_zero(a: Self) {
        assert forall|i: int| 0 <= i < N implies a.plus(Self::zero_value()).lane(i) == a.lane(
            i,
        ) by {
            a.lemma_lanes(Self::zero_value(), 0, 1, i);
        }
        a.plus(Self::zero_value()).lemma_same_lanes(a);
    }

    proof fn lemma_minus_undoes_plus(a: Self, b: Self) {
        assert forall|i: int| 0 <= i < N implies a.plus(b).minus(b).lane(i) == a.lane(i) by {
            a.lemma_lanes(b, 0, 1, i);
            a.plus(b).lemma_lanes(b, 0, 1, i);
            BlurU32::lemma_minus_undoes_plus(BlurU32(a.lane(i)), BlurU32(b.lane(i)));
        }
        a.plus(b).minus(b).lemma_same_lanes(a);
    }

    proof fn lemma_times_unfolds(a: Self, count: nat) {
        assert forall|i: int| 0 <= i < N implies a.times(0).lane(i) == Self::zero_value().lane(
            i,
        ) by {
            a.lemma_lanes(a, 0, 1, i);
        }
        a.times(0).lemma_same_lanes(Self::zero_value());
        assert forall|i: int| 0 <= i < N implies a.times(count + 1).lane(i) == a.times(
            count,
        ).plus(a).lane(i) by {
            a.lemma_lanes(a, count + 1, 1, i);
            a.lemma_lanes(a, count, 1, i);
            a.times(count).lemma_lanes(a, 0, 1, i);
            assert(a.lane(i) * (count + 1) == a.lane(i) * count + a.lane(i))
                by (nonlinear_arith);
            vstd::arithmetic::div_mod::lemma_add_mod_noop(
                a.lane(i) * count,
                a.lane(i) as int,
                0x1_0000_0000,
            );
        }
        a.times(count + 1).lemma_same_lanes(a.times(count).plus(a));
    }

    proof fn lemma_over_one(a: Self) {
        assert forall|i: int| 0 <= i < N implies a.over(1).lane(i) == a.lane(i) by {
            a.lemma_lanes(a, 0, 1, i);
        }
        a.over(1).lemma_same_lanes(a);
    }
}

} // verus!
