//! The mathematics of the blur: clamped taps, triangular weights and the
//! weighted window sums, with the lemmas that let a running total follow the
//! window as it slides.

use crate::traits::StackBlurrable;
use vstd::prelude::*;

verus! {

/// The input value at position `j`, where positions before the first element
/// repeat the first and positions after the last repeat the last.
pub open spec fn tap<T>(input: Seq<T>, j: int) -> T
    recommends
        input.len() > 0,
{
    if j <= 0 {
        input[0]
    } else if j >= input.len() {
        input[input.len() - 1]
    } else {
        input[j]
    }
}

/// The weight of the tap that lies `offset` positions from the centre of the
/// window: `radius + 1` at the centre, one less for every step away from it,
/// and zero from `radius + 1` steps on.
pub open spec fn weight(radius: nat, offset: int) -> nat {
    if 0 <= offset <= radius {
        (radius + 1 - offset) as nat
    } else if -(radius as int) <= offset < 0 {
        (radius + 1 + offset) as nat
    } else {
        0
    }
}

/// The sum of all weights of a window: what a weighted sum is divided by.
pub open spec fn divisor(radius: nat) -> nat {
    (radius + 1) * (radius + 1)
}

/// The weights of the window centred on `center`, as a function of the tap's
/// position.
pub open spec fn triangle(radius: nat, center: int) -> spec_fn(int) -> nat {
    |j: int| weight(radius, j - center)
}

/// The coefficients that count every tap once.
pub open spec fn ones() -> spec_fn(int) -> nat {
    |j: int| 1nat
}

/// The coefficients that count the taps in `lo..hi` once and no other tap.
pub open spec fn indicator(lo: int, hi: int) -> spec_fn(int) -> nat {
    |j: int| if lo <= j < hi { 1nat } else { 0nat }
}

/// The sum over the positions `lo..hi` of the tap at each position, scaled by
/// the coefficient of that position.
pub open spec fn combination<T: StackBlurrable>(
    input: Seq<T>,
    coeff: spec_fn(int) -> nat,
    lo: int,
    hi: int,
) -> T
    decreases hi - lo,
{
    if hi <= lo {
        T::zero_value()
    } else {
        combination(input, coeff, lo, hi - 1).plus(tap(input, hi - 1).times(coeff(hi - 1)))
    }
}

/// The plain sum of the taps at the positions `lo..hi`.
pub open spec fn tap_sum<T: StackBlurrable>(input: Seq<T>, lo: int, hi: int) -> T {
    combination(input, ones(), lo, hi)
}

/// The triangularly weighted sum of the `2 * radius + 2` taps of the window
/// centred on position `i`: the taps from `i - radius` to `i + radius + 1`,
/// the last of which has weight zero.
pub open spec fn weighted_sum<T: StackBlurrable>(input: Seq<T>, radius: nat, i: int) -> T {
    combination(input, triangle(radius, i), i - radius, i + radius + 2)
}

/// The blurred value at position `i`: the weighted sum of its window, divided
/// by the sum of the weights.
pub open spec fn blurred_at<T: StackBlurrable>(input: Seq<T>, radius: nat, i: int) -> T {
    weighted_sum(input, radius, i).over(divisor(radius) as usize)
}

/// The blurred sequence: as long as the input, each element the blurred value
/// at its position.
pub open spec fn blurred<T: StackBlurrable>(input: Seq<T>, radius: nat) -> Seq<T> {
    Seq::new(input.len(), |i: int| blurred_at(input, radius, i))
}

/// Adding a value to the neutral element gives the value.
pub proof fn lemma_zero_plus<T: StackBlurrable>(a: T)
    ensures
        T::zero_value().plus(a) == a,
{
    T::lemma_plus_commutes(T::zero_value(), a);
    T::lemma_plus_zero(a);
}

/// Scaling by one changes nothing.
pub proof fn lemma_times_one<T: StackBlurrable>(a: T)
    ensures
        a.times(1) == a,
{
    T::lemma_times_unfolds(a, 0);
    lemma_zero_plus(a);
}

/// Scaling by a sum of counts is the sum of the two scalings.
pub proof fn lemma_times_adds<T: StackBlurrable>(a: T, m: nat, n: nat)
    ensures
        a.times(m + n) == a.times(m).plus(a.times(n)),
    decreases n,
{
    if n == 0 {
        T::lemma_times_unfolds(a, 0);
        T::lemma_plus_zero(a.times(m));
    } else {
        let p = (n - 1) as nat;
        lemma_times_adds(a, m, p);
        T::lemma_times_unfolds(a, m + p);
        T::lemma_times_unfolds(a, p);
        T::lemma_plus_associates(a.times(m), a.times(p), a);
    }
}

/// A sum of two sums can be regrouped by exchanging its two inner terms.
pub proof fn lemma_plus_interchange<T: StackBlurrable>(a: T, b: T, c: T, d: T)
    ensures
        a.plus(b).plus(c.plus(d)) == a.plus(c).plus(b.plus(d)),
{
    T::lemma_plus_associates(a, b, c.plus(d));
    T::lemma_plus_associates(b, c, d);
    T::lemma_plus_commutes(b, c);
    T::lemma_plus_associates(c, b, d);
    T::lemma_plus_associates(a, c, b.plus(d));
}

/// Coefficients that agree on a range give the same combination over it.
pub proof fn lemma_combination_same<T: StackBlurrable>(
    input: Seq<T>,
    c1: spec_fn(int) -> nat,
    c2: spec_fn(int) -> nat,
    lo: int,
    hi: int,
)
    requires
        forall|j: int| lo <= j < hi ==> #[trigger] c1(j) == c2(j),
    ensures
        combination(input, c1, lo, hi) == combination(input, c2, lo, hi),
    decreases hi - lo,
{
    if hi > lo {
        lemma_combination_same(input, c1, c2, lo, hi - 1);
    }
}

/// Coefficients that vanish on a range give the neutral element.
pub proof fn lemma_combination_zero<T: StackBlurrable>(
    input: Seq<T>,
    c: spec_fn(int) -> nat,
    lo: int,
    hi: int,
)
    requires
        forall|j: int| lo <= j < hi ==> #[trigger] c(j) == 0,
    ensures
        combination(input, c, lo, hi) == T::zero_value(),
    decreases hi - lo,
{
    if hi > lo {
        lemma_combination_zero(input, c, lo, hi - 1);
        T::lemma_times_unfolds(tap(input, hi - 1), 0);
        T::lemma_plus_zero(T::zero_value());
    }
}

/// A combination over a range is the sum of the combinations over its two
/// parts.
pub proof fn lemma_combination_split<T: StackBlurrable>(
    input: Seq<T>,
    c: spec_fn(int) -> nat,
    lo: int,
    mid: int,
    hi: int,
)
    requires
        lo <= mid <= hi,
    ensures
        combination(input, c, lo, hi) == combination(input, c, lo, mid).plus(
            combination(input, c, mid, hi),
        ),
    decreases hi - mid,
{
    if hi == mid {
        T::lemma_plus_zero(combination(input, c, lo, mid));
    } else {
        lemma_combination_split(input, c, lo, mid, hi - 1);
        T::lemma_plus_associates(
            combination(input, c, lo, mid),
            combination(input, c, mid, hi - 1),
            tap(input, hi - 1).times(c(hi - 1)),
        );
    }
}

/// Positions with coefficient zero at either end of a range can be left out.
pub proof fn lemma_combination_trim<T: StackBlurrable>(
    input: Seq<T>,
    c: spec_fn(int) -> nat,
    lo: int,
    lo2: int,
    hi2: int,
    hi: int,
)
    requires
        lo <= lo2 <= hi2 <= hi,
        forall|j: int| lo <= j < lo2 ==> #[trigger] c(j) == 0,
        forall|j: int| hi2 <= j < hi ==> #[trigger] c(j) == 0,
    ensures
        combination(input, c, lo, hi) == combination(input, c, lo2, hi2),
{
    lemma_combination_split(input, c, lo, lo2, hi);
    lemma_combination_split(input, c, lo2, hi2, hi);
    lemma_combination_zero(input, c, lo, lo2);
    lemma_combination_zero(input, c, hi2, hi);
    lemma_zero_plus(combination(input, c, lo2, hi));
    T::lemma_plus_zero(combination(input, c, lo2, hi2));
}

/// The sum of two combinations is the combination of the summed coefficients.
pub proof fn lemma_combination_adds<T: StackBlurrable>(
    input: Seq<T>,
    c1: spec_fn(int) -> nat,
    c2: spec_fn(int) -> nat,
    c12: spec_fn(int) -> nat,
    lo: int,
    hi: int,
)
    requires
        forall|j: int| lo <= j < hi ==> #[trigger] c12(j) == c1(j) + c2(j),
    ensures
        combination(input, c1, lo, hi).plus(combination(input, c2, lo, hi)) == combination(
            input,
            c12,
            lo,
            hi,
        ),
    decreases hi - lo,
{
    if hi <= lo {
        T::lemma_plus_zero(T::zero_value());
    } else {
        let t = tap(input, hi - 1);
        lemma_combination_adds(input, c1, c2, c12, lo, hi - 1);
        lemma_plus_interchange(
            combination(input, c1, lo, hi - 1),
            t.times(c1(hi - 1)),
            combination(input, c2, lo, hi - 1),
            t.times(c2(hi - 1)),
        );
        lemma_times_adds(t, c1(hi - 1), c2(hi - 1));
    }
}

/// Two pairs of coefficients with the same sum at every position give the
/// same sum of combinations.
pub proof fn lemma_combination_balance<T: StackBlurrable>(
    input: Seq<T>,
    a1: spec_fn(int) -> nat,
    a2: spec_fn(int) -> nat,
    b1: spec_fn(int) -> nat,
    b2: spec_fn(int) -> nat,
    lo: int,
    hi: int,
)
    requires
        forall|j: int| lo <= j < hi ==> #[trigger] a1(j) + a2(j) == b1(j) + b2(j),
    ensures
        combination(input, a1, lo, hi).plus(combination(input, a2, lo, hi)) == combination(
            input,
            b1,
            lo,
            hi,
        ).plus(combination(input, b2, lo, hi)),
{
    let total = |j: int| a1(j) + a2(j);
    lemma_combination_adds(input, a1, a2, total, lo, hi);
    lemma_combination_adds(input, b1, b2, total, lo, hi);
}

/// The plain sum of the taps in `lo..hi` is the combination, over any range
/// that holds them, that counts exactly these taps once.
pub proof fn lemma_tap_sum_as_indicator<T: StackBlurrable>(
    input: Seq<T>,
    lo: int,
    hi: int,
    from: int,
    to: int,
)
    requires
        from <= lo <= hi <= to,
    ensures
        tap_sum(input, lo, hi) == combination(input, indicator(lo, hi), from, to),
{
    lemma_combination_trim(input, indicator(lo, hi), from, lo, hi, to);
    lemma_combination_same(input, ones(), indicator(lo, hi), lo, hi);
}

/// Taking the first tap off a plain sum: the sum of the taps in `lo..hi` is
/// the tap at `lo` added to the sum of the taps after it.
pub proof fn lemma_tap_sum_first<T: StackBlurrable>(input: Seq<T>, lo: int, hi: int)
    requires
        lo < hi,
    ensures
        tap_sum(input, lo, hi) == tap_sum(input, lo + 1, hi).plus(tap(input, lo)),
{
    lemma_combination_split(input, ones(), lo, lo + 1, hi);
    assert(combination(input, ones(), lo, lo) == T::zero_value());
    lemma_zero_plus(tap(input, lo).times(1));
    lemma_times_one(tap(input, lo));
    T::lemma_plus_commutes(tap(input, lo), tap_sum(input, lo + 1, hi));
}

/// Putting one more tap on a plain sum.
pub proof fn lemma_tap_sum_last<T: StackBlurrable>(input: Seq<T>, lo: int, hi: int)
    requires
        lo <= hi,
    ensures
        tap_sum(input, lo, hi + 1) == tap_sum(input, lo, hi).plus(tap(input, hi)),
{
    lemma_times_one(tap(input, hi));
}

/// How the weighted sum moves with its window: the sum at the next position,
/// together with the taps that the centre has passed, is the sum at this
/// position together with the taps that lie ahead of the centre.
pub proof fn lemma_weighted_sum_slides<T: StackBlurrable>(input: Seq<T>, radius: nat, i: int)
    ensures
        weighted_sum(input, radius, i + 1).plus(tap_sum(input, i - radius, i + 1))
            == weighted_sum(input, radius, i).plus(tap_sum(input, i + 1, i + radius + 2)),
{
    let from = i - radius;
    let to = i + radius + 3;
    let here = triangle(radius, i);
    let next = triangle(radius, i + 1);
    let behind = indicator(i - radius, i + 1);
    let ahead = indicator(i + 1, i + radius + 2);
    lemma_combination_trim(input, here, from, from, to - 1, to);
    lemma_combination_trim(input, next, from, from + 1, to, to);
    lemma_tap_sum_as_indicator(input, i - radius, i + 1, from, to);
    lemma_tap_sum_as_indicator(input, i + 1, i + radius + 2, from, to);
    lemma_combination_balance(input, next, behind, here, ahead, from, to);
}

/// The sum of the coefficients of the positions `lo..hi`.
pub open spec fn coefficient_sum(coeff: spec_fn(int) -> nat, lo: int, hi: int) -> nat
    decreases hi - lo,
{
    if hi <= lo {
        0
    } else {
        coefficient_sum(coeff, lo, hi - 1) + coeff(hi - 1)
    }
}

/// Twice the sum of the weights of the window around `center` up to, but not
/// including, the position `upto`: the weights rise by one per position up to
/// the centre and fall by one per position after it.
pub proof fn lemma_triangle_partial(radius: nat, center: int, upto: int)
    requires
        center - radius <= upto <= center + radius + 2,
    ensures
        upto <= center + 1 ==> 2 * coefficient_sum(
            triangle(radius, center),
            center - radius,
            upto,
        ) == (upto - center + radius) * (upto - center + radius + 1),
        upto >= center + 1 ==> 2 * coefficient_sum(
            triangle(radius, center),
            center - radius,
            upto,
        ) == 2 * divisor(radius) - (center + radius + 1 - upto) * (center + radius + 2 - upto),
    decreases upto - (center - radius),
{
    let t = upto - center;
    let r = radius as int;
    if upto > center - radius {
        lemma_triangle_partial(radius, center, upto - 1);
        assert(triangle(radius, center)(upto - 1) == weight(radius, t - 1));
        if upto <= center + 1 {
            assert((t - 1 + r) * (t + r) + 2 * (r + t) == (t + r) * (t + r + 1))
                by (nonlinear_arith);
        }
        if upto == center + 1 {
            assert((t + r) * (t + r + 1) == 2 * ((r + 1) * (r + 1)) - (r + 1 - t) * (r + 2 - t))
                by (nonlinear_arith)
                requires
                    t == 1,
            ;
        }
        if upto > center + 1 {
            assert(2 * ((r + 1) * (r + 1)) - (r + 2 - t) * (r + 3 - t) + 2 * (r + 2 - t) == 2 * ((r
                + 1) * (r + 1)) - (r + 1 - t) * (r + 2 - t)) by (nonlinear_arith);
        }
    } else {
        assert((t + r) * (t + r + 1) == 0) by (nonlinear_arith)
            requires
                t + r == 0,
        ;
    }
}

/// The weights of a window add up to the divisor, `(radius + 1)^2`.
pub proof fn lemma_triangle_total(radius: nat, center: int)
    ensures
        coefficient_sum(triangle(radius, center), center - radius, center + radius + 2)
            == divisor(radius),
{
    lemma_triangle_partial(radius, center, center + radius + 2);
}

/// A combination of taps that all hold the same value is that value, scaled
/// by the sum of the coefficients.
pub proof fn lemma_uniform_combination<T: StackBlurrable>(
    input: Seq<T>,
    value: T,
    coeff: spec_fn(int) -> nat,
    lo: int,
    hi: int,
)
    requires
        forall|j: int| lo <= j < hi ==> #[trigger] tap(input, j) == value,
    ensures
        combination(input, coeff, lo, hi) == value.times(coefficient_sum(coeff, lo, hi)),
    decreases hi - lo,
{
    if hi <= lo {
        T::lemma_times_unfolds(value, 0);
    } else {
        lemma_uniform_combination(input, value, coeff, lo, hi - 1);
        assert(tap(input, hi - 1) == value);
        lemma_times_adds(value, coefficient_sum(coeff, lo, hi - 1), coeff(hi - 1));
    }
}

} // verus!
