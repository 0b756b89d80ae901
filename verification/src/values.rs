//! The sums of the scalar accumulator as plain integers.
//!
//! A sum of `BlurU32` values wraps around at 2^32. This module states the
//! same sums over the integers, where nothing wraps, and shows that the two
//! agree as long as the integer sum fits in 32 bits. Order and bounds are
//! then read off the integer sums.

use crate::color::{low_word, wrap_u32, BlurU32};
use crate::iter::radius_fits;
use crate::traits::StackBlurrable;
use crate::window::{
    blurred_at, coefficient_sum, combination, divisor, lemma_triangle_total, tap, triangle,
    weight, weighted_sum,
};
use vstd::prelude::*;

verus! {

/// The sum over the positions `lo..hi` of the value at each position times
/// the coefficient of that position.
pub open spec fn weighted_values(
    value: spec_fn(int) -> int,
    coeff: spec_fn(int) -> nat,
    lo: int,
    hi: int,
) -> int
    decreases hi - lo,
{
    if hi <= lo {
        0
    } else {
        weighted_values(value, coeff, lo, hi - 1) + value(hi - 1) * coeff(hi - 1)
    }
}

/// The taps of a sequence of scalar accumulators, as integers.
pub open spec fn tap_values(input: Seq<BlurU32>) -> spec_fn(int) -> int {
    |j: int| tap(input, j).0 as int
}

/// The weighted sum of the window around `i`, as an integer.
pub open spec fn window_value(input: Seq<BlurU32>, radius: nat, i: int) -> int {
    weighted_values(tap_values(input), triangle(radius, i), i - radius, i + radius + 2)
}

/// A combination of scalar accumulators is the integer sum, wrapped around
/// at 2^32.
pub proof fn lemma_combination_value(
    input: Seq<BlurU32>,
    coeff: spec_fn(int) -> nat,
    lo: int,
    hi: int,
)
    ensures
        combination(input, coeff, lo, hi).0 == wrap_u32(
            weighted_values(tap_values(input), coeff, lo, hi),
        ),
    decreases hi - lo,
{
    if hi > lo {
        lemma_combination_value(input, coeff, lo, hi - 1);
        let head = weighted_values(tap_values(input), coeff, lo, hi - 1);
        let last = tap(input, hi - 1).0 * coeff(hi - 1);
        assert(tap_values(input)(hi - 1) == tap(input, hi - 1).0);
        vstd::arithmetic::div_mod::lemma_add_mod_noop(head, last, 0x1_0000_0000);
    }
}

/// Values that are nowhere greater give a sum that is not greater.
pub proof fn lemma_weighted_values_ordered(
    below: spec_fn(int) -> int,
    above: spec_fn(int) -> int,
    coeff: spec_fn(int) -> nat,
    lo: int,
    hi: int,
)
    requires
        forall|j: int| lo <= j < hi ==> #[trigger] below(j) <= above(j),
    ensures
        weighted_values(below, coeff, lo, hi) <= weighted_values(above, coeff, lo, hi),
    decreases hi - lo,
{
    if hi > lo {
        lemma_weighted_values_ordered(below, above, coeff, lo, hi - 1);
        assert(below(hi - 1) <= above(hi - 1));
        assert(below(hi - 1) * coeff(hi - 1) <= above(hi - 1) * coeff(hi - 1))
            by (nonlinear_arith)
            requires
                below(hi - 1) <= above(hi - 1),
                coeff(hi - 1) >= 0,
        ;
    }
}

/// Values and coefficients that agree on a range give the same sum.
pub proof fn lemma_weighted_values_same(
    v1: spec_fn(int) -> int,
    v2: spec_fn(int) -> int,
    c1: spec_fn(int) -> nat,
    c2: spec_fn(int) -> nat,
    lo: int,
    hi: int,
)
    requires
        forall|j: int| lo <= j < hi ==> #[trigger] v1(j) == v2(j),
        forall|j: int| lo <= j < hi ==> #[trigger] c1(j) == c2(j),
    ensures
        weighted_values(v1, c1, lo, hi) == weighted_values(v2, c2, lo, hi),
    decreases hi - lo,
{
    if hi > lo {
        lemma_weighted_values_same(v1, v2, c1, c2, lo, hi - 1);
        assert(v1(hi - 1) == v2(hi - 1));
        assert(c1(hi - 1) == c2(hi - 1));
    }
}

/// A sum of one value throughout is the value times the sum of the
/// coefficients.
pub proof fn lemma_weighted_values_constant(
    value: spec_fn(int) -> int,
    constant: int,
    coeff: spec_fn(int) -> nat,
    lo: int,
    hi: int,
)
    requires
        forall|j: int| lo <= j < hi ==> #[trigger] value(j) == constant,
    ensures
        weighted_values(value, coeff, lo, hi) == constant * coefficient_sum(coeff, lo, hi),
    decreases hi - lo,
{
    if hi > lo {
        lemma_weighted_values_constant(value, constant, coeff, lo, hi - 1);
        assert(value(hi - 1) == constant);
        assert(constant * (coefficient_sum(coeff, lo, hi - 1) + coeff(hi - 1)) == constant
            * coefficient_sum(coeff, lo, hi - 1) + constant * coeff(hi - 1)) by (nonlinear_arith);
    } else {
        assert(constant * 0 == 0);
    }
}

/// A sum over a range moved on by one position is the sum over the range of
/// the values and coefficients one position further on.
pub proof fn lemma_weighted_values_shift(
    value: spec_fn(int) -> int,
    coeff: spec_fn(int) -> nat,
    lo: int,
    hi: int,
)
    ensures
        weighted_values(value, coeff, lo + 1, hi + 1) == weighted_values(
            |j: int| value(j + 1),
            |j: int| coeff(j + 1),
            lo,
            hi,
        ),
    decreases hi - lo,
{
    if hi > lo {
        lemma_weighted_values_shift(value, coeff, lo, hi - 1);
    }
}

/// The integer sum of a window lies between the least and the greatest value
/// times the sum of the weights.
pub proof fn lemma_window_value_bounds(
    input: Seq<BlurU32>,
    radius: nat,
    i: int,
    least: int,
    greatest: int,
)
    requires
        input.len() > 0,
        forall|j: int| 0 <= j < input.len() ==> least <= (#[trigger] input[j]).0 <= greatest,
    ensures
        least * divisor(radius) <= window_value(input, radius, i) <= greatest * divisor(radius),
{
    let weights = triangle(radius, i);
    let (lo, hi) = (i - radius, i + radius + 2);
    lemma_triangle_total(radius, i);
    assert forall|j: int| lo <= j < hi implies least <= #[trigger] tap_values(input)(j)
        <= greatest by {
        assert(tap(input, j) == input[if j <= 0 {
            0
        } else if j >= input.len() {
            input.len() - 1
        } else {
            j
        }]);
    }
    lemma_weighted_values_constant(|j: int| least, least, weights, lo, hi);
    lemma_weighted_values_constant(|j: int| greatest, greatest, weights, lo, hi);
    lemma_weighted_values_ordered(|j: int| least, tap_values(input), weights, lo, hi);
    lemma_weighted_values_ordered(tap_values(input), |j: int| greatest, weights, lo, hi);
}

/// As long as the greatest element times the sum of the weights fits in 32
/// bits, no sum wraps: a blurred element is the integer sum of its window
/// divided by the sum of the weights.
pub proof fn lemma_blurred_value(input: Seq<BlurU32>, radius: usize, i: int, greatest: int)
    requires
        radius_fits::<BlurU32>(radius),
        input.len() > 0,
        forall|j: int| 0 <= j < input.len() ==> (#[trigger] input[j]).0 <= greatest,
        greatest * divisor(radius as nat) <= u32::MAX,
    ensures
        blurred_at(input, radius as nat, i).0 == window_value(input, radius as nat, i) / (divisor(
            radius as nat,
        ) as int),
        0 <= window_value(input, radius as nat, i) <= greatest * divisor(radius as nat),
{
    let r = radius as nat;
    let d = divisor(r);
    let total = window_value(input, r, i);
    lemma_window_value_bounds(input, r, i, 0, greatest);
    lemma_combination_value(input, triangle(r, i), i - r, i + r + 2);
    assert(0 * d == 0);
    assert(weighted_sum(input, r, i).0 == total);
    assert(d > 0) by (nonlinear_arith)
        requires
            d == (r + 1) * (r + 1),
    ;
    if greatest >= 1 {
        assert(d <= greatest * d) by (nonlinear_arith)
            requires
                greatest >= 1,
                d > 0,
        ;
        assert(low_word(d as usize) == d);
    } else {
        assert(greatest * d <= 0) by (nonlinear_arith)
            requires
                greatest <= 0,
                d > 0,
        ;
        let by = low_word(d as usize);
        assert(0u32 / by == 0) by (nonlinear_arith)
            requires
                by > 0,
        ;
        assert(0int / (d as int) == 0) by (nonlinear_arith)
            requires
                d > 0,
        ;
    }
}

/// The integer sum of a window does not fall from one position to the next
/// when the input does not fall.
pub proof fn lemma_window_value_rises(input: Seq<BlurU32>, radius: nat, i: int)
    requires
        input.len() > 0,
        forall|a: int, b: int|
            0 <= a <= b < input.len() ==> (#[trigger] input[a]).0 <= (#[trigger] input[b]).0,
    ensures
        window_value(input, radius, i) <= window_value(input, radius, i + 1),
{
    let values = tap_values(input);
    let (lo, hi) = (i - radius, i + radius + 2);
    lemma_weighted_values_shift(values, triangle(radius, i + 1), lo, hi);
    let moved = |j: int| values(j + 1);
    let moved_weights = |j: int| triangle(radius, i + 1)(j + 1);
    lemma_weighted_values_same(moved, moved, moved_weights, triangle(radius, i), lo, hi);
    assert forall|j: int| lo <= j < hi implies #[trigger] values(j) <= moved(j) by {
        lemma_tap_rises(input, j);
    }
    lemma_weighted_values_ordered(values, moved, triangle(radius, i), lo, hi);
}

/// The integer sum of a window does not rise from one position to the next
/// when the input does not rise.
pub proof fn lemma_window_value_falls(input: Seq<BlurU32>, radius: nat, i: int)
    requires
        input.len() > 0,
        forall|a: int, b: int|
            0 <= a <= b < input.len() ==> (#[trigger] input[a]).0 >= (#[trigger] input[b]).0,
    ensures
        window_value(input, radius, i) >= window_value(input, radius, i + 1),
{
    let values = tap_values(input);
    let (lo, hi) = (i - radius, i + radius + 2);
    lemma_weighted_values_shift(values, triangle(radius, i + 1), lo, hi);
    let moved = |j: int| values(j + 1);
    let moved_weights = |j: int| triangle(radius, i + 1)(j + 1);
    lemma_weighted_values_same(moved, moved, moved_weights, triangle(radius, i), lo, hi);
    assert forall|j: int| lo <= j < hi implies #[trigger] moved(j) <= values(j) by {
        lemma_tap_falls(input, j);
    }
    lemma_weighted_values_ordered(moved, values, triangle(radius, i), lo, hi);
}

/// The taps of an input that does not fall do not fall.
pub proof fn lemma_tap_rises(input: Seq<BlurU32>, j: int)
    requires
        input.len() > 0,
        forall|a: int, b: int|
            0 <= a <= b < input.len() ==> (#[trigger] input[a]).0 <= (#[trigger] input[b]).0,
    ensures
        tap(input, j).0 <= tap(input, j + 1).0,
{
    let here = if j <= 0 {
        0
    } else if j >= input.len() {
        input.len() - 1
    } else {
        j
    };
    let there = if j + 1 <= 0 {
        0
    } else if j + 1 >= input.len() {
        input.len() - 1
    } else {
        j + 1
    };
    assert(input[here].0 <= input[there].0);
}

/// The taps of an input that does not rise do not rise.
pub proof fn lemma_tap_falls(input: Seq<BlurU32>, j: int)
    requires
        input.len() > 0,
        forall|a: int, b: int|
            0 <= a <= b < input.len() ==> (#[trigger] input[a]).0 >= (#[trigger] input[b]).0,
    ensures
        tap(input, j).0 >= tap(input, j + 1).0,
{
    let here = if j <= 0 {
        0
    } else if j >= input.len() {
        input.len() - 1
    } else {
        j
    };
    let there = if j + 1 <= 0 {
        0
    } else if j + 1 >= input.len() {
        input.len() - 1
    } else {
        j + 1
    };
    assert(input[here].0 >= input[there].0);
}

} // verus!
