//! The streaming blur engine.
//!
//! [`StackBlur`] walks over a sequence of blurrable values once and hands out
//! the blurred sequence element by element. It keeps the taps of the current
//! window in a queue of `2 * radius + 2` elements and three running totals,
//! so that the work per element does not depend on the radius.

use crate::traits::StackBlurrable;
use crate::window::{
    blurred, blurred_at, combination, divisor, lemma_tap_sum_first, lemma_tap_sum_last,
    lemma_weighted_sum_slides, tap, tap_sum, triangle, weight, weighted_sum,
};
use std::collections::VecDeque;
use vstd::prelude::*;

verus! {

/// Whether the engine can run with this radius on values of type `T`: the sum
/// of the weights, `(radius + 1)^2`, fits in a `usize`, and `T` can divide by
/// it.
pub open spec fn radius_fits<T: StackBlurrable>(radius: usize) -> bool {
    &&& divisor(radius as nat) <= usize::MAX
    &&& T::can_divide_by(divisor(radius as nat) as usize)
}

/// Tests whether the engine can run with this radius on values of type `T`.
pub fn fits_radius<T: StackBlurrable>(radius: usize) -> (fits: bool)
    ensures
        fits == radius_fits::<T>(radius),
{
    let side = match radius.checked_add(1) {
        Some(side) => side,
        None => {
            assert(divisor(radius as nat) > usize::MAX) by (nonlinear_arith)
                requires
                    radius + 1 > usize::MAX,
                    divisor(radius as nat) == (radius + 1) * (radius + 1),
            ;
            return false;
        },
    };
    match side.checked_mul(side) {
        Some(weights) => T::can_divide(weights),
        None => false,
    }
}

/// A blur in progress over one input sequence.
pub struct StackBlur<'a, T: StackBlurrable> {
    input: &'a [T],
    radius: usize,
    dnom: usize,
    ops: VecDeque<T>,
    sum: T,
    ahead: T,
    behind: T,
    read: usize,
    emitted: usize,
}

impl<'a, T: StackBlurrable> StackBlur<'a, T> {
    /// The sequence that is being blurred.
    pub closed spec fn input(&self) -> Seq<T> {
        self.input@
    }

    /// The radius of the blur.
    pub closed spec fn radius(&self) -> nat {
        self.radius as nat
    }

    /// The number of elements handed out so far.
    pub closed spec fn position(&self) -> nat {
        self.emitted as nat
    }

    /// The invariant of the engine. While input is left, the queue holds the
    /// taps of the window around the next position, `sum` is the weighted sum
    /// of that window, `behind` is the plain sum of the taps up to the centre
    /// and `ahead` that of the taps after it.
    pub closed spec fn wf(&self) -> bool {
        let len = self.input@.len() as int;
        let r = self.radius as int;
        let i = self.emitted as int;
        &&& divisor(self.radius as nat) <= usize::MAX
        &&& self.dnom == divisor(self.radius as nat)
        &&& T::can_divide_by(self.dnom)
        &&& i <= len
        &&& len == 0 ==> self.ops@.len() == 0
        &&& len > 0 ==> {
            &&& self.ops@.len() == 2 * r + 2
            &&& forall|k: int|
                0 <= k < 2 * r + 2 ==> #[trigger] self.ops@[k] == tap(self.input@, i - r + k)
            &&& self.read as int == if i + r + 2 < len {
                i + r + 2
            } else {
                len
            }
            &&& self.sum == weighted_sum(self.input@, self.radius as nat, i)
            &&& self.ahead == tap_sum(self.input@, i + 1, i + r + 2)
            &&& self.behind == tap_sum(self.input@, i - r, i + 1)
        }
    }

    /// Starts a blur of `input` with the given radius. The scratch queue `ops`
    /// is emptied and then filled with the first window, in which the first
    /// element stands for the positions before the start of the input.
    pub fn new(input: &'a [T], radius: usize, ops: VecDeque<T>) -> (blur: Self)
        requires
            radius_fits::<T>(radius),
        ensures
            blur.wf(),
            blur.input() == input@,
            blur.radius() == radius as nat,
            blur.position() == 0,
            blur.window().len() == if input@.len() == 0 {
                0
            } else {
                2 * radius + 2
            },
    {
        let ghost r = radius as int;
        assert(radius + 1 <= usize::MAX && (radius + 1) * (radius + 1) == divisor(radius as nat))
            by (nonlinear_arith)
            requires
                (radius + 1) * (radius + 1) <= usize::MAX,
                divisor(radius as nat) == (radius + 1) * (radius + 1),
        ;
        let side: usize = radius + 1;
        let dnom: usize = side * side;
        let mut ops = ops;
        ops.clear();
        let mut sum = T::zero();
        let mut ahead = T::zero();
        let mut behind = T::zero();
        let mut read: usize = 0;
        if input.len() > 0 {
            let first = input[0];
            read = 1;
            let mut k: usize = 0;
            while k < side
                invariant
                    side == radius + 1,
                    k <= side,
                    input@.len() > 0,
                    first == input@[0],
                    ops@.len() == k,
                    forall|n: int| 0 <= n < k ==> #[trigger] ops@[n] == tap(input@, n - r),
                    r == radius as int,
                    behind == tap_sum(input@, -r, k - r),
                    sum == combination(input@, triangle(radius as nat, 0), -r, k - r),
                decreases side - k,
            {
                proof {
                    lemma_tap_sum_last(input@, -r, k - r);
                    assert(triangle(radius as nat, 0)(k - r) == (k + 1) as nat);
                }
                ops.push_back(first);
                behind.add_assign(first);
                sum.add_assign(first.mul(k + 1));
                k += 1;
            }
            let mut m: usize = 1;
            while m <= side
                invariant
                    side == radius + 1,
                    1 <= m <= side + 1,
                    input@.len() > 0,
                    r == radius as int,
                    ops@.len() == r + m,
                    forall|n: int| 0 <= n < r + m ==> #[trigger] ops@[n] == tap(input@, n - r),
                    read as int == if (m as int) < input@.len() {
                        m as int
                    } else {
                        input@.len() as int
                    },
                    ahead == tap_sum(input@, 1, m as int),
                    sum == combination(input@, triangle(radius as nat, 0), -r, m as int),
                decreases side + 1 - m,
            {
                let newest = if read < input.len() {
                    let value = input[read];
                    read += 1;
                    value
                } else {
                    ops[ops.len() - 1]
                };
                proof {
                    assert(newest == tap(input@, m as int));
                    lemma_tap_sum_last(input@, 1, m as int);
                    assert(triangle(radius as nat, 0)(m as int) == (side - m) as nat);
                }
                ops.push_back(newest);
                ahead.add_assign(newest);
                sum.add_assign(newest.mul(side - m));
                m += 1;
            }
        }
        StackBlur { input, radius, dnom, ops, sum, ahead, behind, read, emitted: 0 }
    }

    /// Hands out the next element of the blurred sequence, or `None` once
    /// there have been as many as the input has: the weighted sum of the
    /// current window divided by the sum of the weights. The window then moves
    /// on by one position. The tap that enters it is the next element of the
    /// input or, when the input has ended, its last element once more.
    pub fn next(&mut self) -> (out: Option<T>)
        requires
            old(self).wf(),
        ensures
            final(self).wf(),
            final(self).input() == old(self).input(),
            final(self).radius() == old(self).radius(),
            old(self).position() <= old(self).input().len(),
            old(self).position() < old(self).input().len() ==> {
                &&& out == Some(
                    blurred_at(old(self).input(), old(self).radius(), old(self).position() as int),
                )
                &&& final(self).position() == old(self).position() + 1
            },
            old(self).position() >= old(self).input().len() ==> {
                &&& out is None
                &&& final(self).position() == old(self).position()
            },
    {
        if self.emitted >= self.input.len() {
            return None;
        }
        let ghost input = self.input@;
        let ghost radius = self.radius as nat;
        let ghost r = self.radius as int;
        let ghost i = self.emitted as int;
        let ghost window = self.ops@;
        let out = self.sum.div(self.dnom);
        proof {
            lemma_weighted_sum_slides(input, radius, i);
            T::lemma_minus_undoes_plus(
                weighted_sum(input, radius, i + 1),
                tap_sum(input, i - r, i + 1),
            );
            lemma_tap_sum_first(input, i - r, i + 1);
            T::lemma_minus_undoes_plus(tap_sum(input, i - r + 1, i + 1), tap(input, i - r));
            lemma_tap_sum_last(input, i - r + 1, i + 1);
            lemma_tap_sum_first(input, i + 1, i + r + 2);
            T::lemma_minus_undoes_plus(tap_sum(input, i + 2, i + r + 2), tap(input, i + 1));
            lemma_tap_sum_last(input, i + 2, i + r + 2);
            assert(window[0] == tap(input, i - r));
            assert(window[r + 1] == tap(input, i + 1));
            assert(window[2 * r + 1] == tap(input, i + r + 1));
        }
        self.sum.add_assign(self.ahead);
        self.sum.sub_assign(self.behind);
        let oldest = self.ops.pop_front();
        if let Some(value) = oldest {
            self.behind.sub_assign(value);
        }
        let mid = self.ops[self.radius];
        self.behind.add_assign(mid);
        self.ahead.sub_assign(mid);
        let newest = if self.read < self.input.len() {
            let value = self.input[self.read];
            self.read += 1;
            value
        } else {
            self.ops[self.ops.len() - 1]
        };
        assert(newest == tap(input, i + r + 2));
        self.ahead.add_assign(newest);
        self.ops.push_back(newest);
        self.emitted += 1;
        proof {
            assert forall|k: int| 0 <= k < 2 * r + 2 implies #[trigger] self.ops@[k] == tap(
                input,
                i + 1 - r + k,
            ) by {
                if k < 2 * r + 1 {
                    assert(self.ops@[k] == window[k + 1]);
                }
            }
        }
        Some(out)
    }

    /// Hands out all elements of the blurred sequence that are left, in order.
    /// Together with those handed out before there are exactly as many as
    /// the input has.
    pub fn collect(&mut self) -> (rest: Vec<T>)
        requires
            old(self).wf(),
        ensures
            final(self).wf(),
            final(self).input() == old(self).input(),
            final(self).radius() == old(self).radius(),
            old(self).position() <= old(self).input().len(),
            final(self).position() == old(self).input().len(),
            rest@ == blurred(old(self).input(), old(self).radius()).skip(
                old(self).position() as int,
            ),
    {
        let ghost input = self.input@;
        let ghost radius = self.radius as nat;
        let ghost start = self.emitted as int;
        let mut rest: Vec<T> = Vec::new();
        while self.emitted < self.input.len()
            invariant
                self.wf(),
                self.input@ == input,
                self.radius as nat == radius,
                start <= self.emitted <= input.len(),
                rest@.len() == self.emitted - start,
                forall|k: int|
                    0 <= k < rest@.len() ==> #[trigger] rest@[k] == blurred_at(
                        input,
                        radius,
                        start + k,
                    ),
            decreases input.len() - self.emitted,
        {
            if let Some(value) = self.next() {
                rest.push(value);
            }
        }
        assert(rest@ =~= blurred(input, radius).skip(start));
        rest
    }

    /// The taps that the scratch queue holds: none while the input is empty,
    /// and else the `2 * radius + 2` taps of the window around the next
    /// position.
    pub open spec fn window(&self) -> Seq<T> {
        if self.input().len() == 0 {
            Seq::empty()
        } else {
            Seq::new(
                2 * self.radius() + 2,
                |k: int| tap(self.input(), self.position() - self.radius() + k),
            )
        }
    }

    /// Ends the blur and gives the scratch queue back, to be used again.
    pub fn into_ops(self) -> (ops: VecDeque<T>)
        requires
            self.wf(),
        ensures
            ops@ == self.window(),
    {
        assert(self.ops@ =~= self.window());
        self.ops
    }
}

} // verus!
