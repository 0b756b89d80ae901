//! Why blurring packed colours with several lines side by side gives what
//! blurring them line by line gives.
//!
//! Every lane of a lane-packed accumulator goes through the same arithmetic
//! as a scalar accumulator, so lane `j` of a blurred group of lines is the
//! blur of line `j`. The one difference lies in the division: the scalar
//! accumulator divides by the low 32 bits of the count and the lane-packed
//! one by the whole count, so the two agree as long as the sum of the weights
//! fits in 32 bits.

use crate::arrays::{lanes_from, lemma_lanes_from};
use crate::color::{
    repacked, repacked_lanes, u32xN, unpacked, unpacked_lanes, Argb, BlurU32,
};
use crate::exact::{
    columns_blur, frame_blur, group_values, lanes_blur, lemma_frame_position, line_blur,
    pass_computed, rows_blur, simd_frame_computed,
};
use crate::frame::{column, frame_fits, in_frame, lemma_pixel_position, row};
use crate::lanes::{group_lines, lane_position, on_lanes, pass_line};
use crate::traits::StackBlurrable;
use crate::window::{blurred_at, combination, divisor, tap, weighted_sum};
use vstd::prelude::*;

verus! {

/// The conversion from a packed colour to its channels, as a function.
pub open spec fn unpack_fn() -> spec_fn(u32) -> Argb<BlurU32> {
    |pixel: u32| unpacked(pixel)
}

/// The conversion from channels to a packed colour, as a function.
pub open spec fn repack_fn() -> spec_fn(Argb<BlurU32>) -> u32 {
    |channels: Argb<BlurU32>| repacked(channels)
}

/// The conversion from `N` packed colours to their lane-packed channels, as a
/// function.
pub open spec fn unpack_lanes_fn<'a, const N: usize>() -> spec_fn([&'a u32; N]) -> Argb<u32xN<N>> {
    |pixels: [&'a u32; N]| unpacked_lanes(lanes_from(|j: int| *pixels[j]))
}

/// The conversion from lane-packed channels to `N` packed colours, as a
/// function.
pub open spec fn repack_lanes_fn<const N: usize>() -> spec_fn(Argb<u32xN<N>>) -> [u32; N] {
    |channels: Argb<u32xN<N>>| repacked_lanes(channels)
}

/// Lane `j` of lane-packed channels, as scalar channels.
pub open spec fn lane_of<const N: usize>(channels: Argb<u32xN<N>>, j: int) -> Argb<BlurU32> {
    Argb {
        alpha: BlurU32(channels.alpha.0[j]),
        red: BlurU32(channels.red.0[j]),
        green: BlurU32(channels.green.0[j]),
        blue: BlurU32(channels.blue.0[j]),
    }
}

/// Lane `j` of every element of a sequence of lane-packed channels.
pub open spec fn lanes_of<const N: usize>(values: Seq<Argb<u32xN<N>>>, j: int) -> Seq<
    Argb<BlurU32>,
> {
    Seq::new(values.len(), |k: int| lane_of(values[k], j))
}

/// Taking a lane commutes with the arithmetic: lane `j` of a sum, of a scaled
/// value and of the neutral element is the sum, the scaled value and the
/// neutral element of the lanes, and so is lane `j` of a quotient when the
/// count fits in 32 bits.
pub proof fn lemma_lane_of_arithmetic<const N: usize>(
    a: Argb<u32xN<N>>,
    b: Argb<u32xN<N>>,
    count: nat,
    by: usize,
    j: int,
)
    requires
        0 <= j < N,
        0 < by <= u32::MAX,
    ensures
        lane_of(Argb::<u32xN<N>>::zero_value(), j) == Argb::<BlurU32>::zero_value(),
        lane_of(a.plus(b), j) == lane_of(a, j).plus(lane_of(b, j)),
        lane_of(a.times(count), j) == lane_of(a, j).times(count),
        lane_of(a.over(by), j) == lane_of(a, j).over(by),
{
    a.alpha.lemma_lane_as_scalar(b.alpha, count, by, j);
    a.red.lemma_lane_as_scalar(b.red, count, by, j);
    a.green.lemma_lane_as_scalar(b.green, count, by, j);
    a.blue.lemma_lane_as_scalar(b.blue, count, by, j);
}

/// Lane `j` of a combination is the combination of the lanes.
pub proof fn lemma_lane_of_combination<const N: usize>(
    values: Seq<Argb<u32xN<N>>>,
    coeff: spec_fn(int) -> nat,
    lo: int,
    hi: int,
    j: int,
)
    requires
        0 <= j < N,
        values.len() > 0,
    ensures
        lane_of(combination(values, coeff, lo, hi), j) == combination(
            lanes_of(values, j),
            coeff,
            lo,
            hi,
        ),
    decreases hi - lo,
{
    let zero = Argb::<u32xN<N>>::zero_value();
    if hi <= lo {
        lemma_lane_of_arithmetic(zero, zero, 0, 1, j);
    } else {
        lemma_lane_of_combination(values, coeff, lo, hi - 1, j);
        let head = combination(values, coeff, lo, hi - 1);
        let last = tap(values, hi - 1);
        lemma_lane_of_arithmetic(head, last.times(coeff(hi - 1)), 0, 1, j);
        lemma_lane_of_arithmetic(last, last, coeff(hi - 1), 1, j);
        assert(tap(lanes_of(values, j), hi - 1) == lane_of(last, j));
    }
}

/// Lane `j` of a blurred value is the blurred value of the lanes, as long as
/// the sum of the weights fits in 32 bits.
pub proof fn lemma_lane_of_blurred<const N: usize>(
    values: Seq<Argb<u32xN<N>>>,
    radius: nat,
    k: int,
    j: int,
)
    requires
        0 <= j < N,
        values.len() > 0,
        divisor(radius) <= u32::MAX,
    ensures
        lane_of(blurred_at(values, radius, k), j) == blurred_at(lanes_of(values, j), radius, k),
{
    lemma_lane_of_combination(
        values,
        crate::window::triangle(radius, k),
        k - radius,
        k + radius + 2,
        j,
    );
    let sum = weighted_sum(values, radius, k);
    assert(divisor(radius) > 0) by (nonlinear_arith)
        requires
            divisor(radius) == (radius + 1) * (radius + 1),
    ;
    lemma_lane_of_arithmetic(sum, sum, 0, divisor(radius) as usize, j);
}

/// Line `j` of a group of lines of packed colours that is blurred side by
/// side is the blur of line `j`, as long as the sum of the weights fits in 32
/// bits.
pub proof fn lemma_group_line_parity<const N: usize>(
    lines: Seq<Seq<u32>>,
    count: nat,
    radius: nat,
    j: int,
)
    requires
        0 <= j < N,
        lines.len() == N,
        forall|m: int| 0 <= m < N ==> (#[trigger] lines[m]).len() == count,
        divisor(radius) <= u32::MAX,
    ensures
        lanes_blur(lines, count, radius, unpack_lanes_fn::<N>(), repack_lanes_fn::<N>())[j]
            == line_blur(lines[j], radius, unpack_fn(), repack_fn()),
{
    let values = group_values(lines, count, unpack_lanes_fn::<N>());
    let single = lines[j].map_values(unpack_fn());
    assert(lanes_of(values, j) =~= single) by {
        assert forall|k: int| 0 <= k < count implies lane_of(values[k], j) == single[k] by {
            let pixels = lanes_from::<&u32, N>(|m: int| &lines[m][k]);
            lemma_lanes_from::<&u32, N>(|m: int| &lines[m][k]);
            let colours = lanes_from::<u32, N>(|m: int| *pixels[m]);
            lemma_lanes_from::<u32, N>(|m: int| *pixels[m]);
            lemma_lanes_from::<u32, N>(|m: int| crate::color::alpha_of(colours[m]));
            lemma_lanes_from::<u32, N>(|m: int| crate::color::red_of(colours[m]));
            lemma_lanes_from::<u32, N>(|m: int| crate::color::green_of(colours[m]));
            lemma_lanes_from::<u32, N>(|m: int| crate::color::blue_of(colours[m]));
            assert(values[k] == unpacked_lanes(colours));
        }
    }
    let side_by_side = lanes_blur(
        lines,
        count,
        radius,
        unpack_lanes_fn::<N>(),
        repack_lanes_fn::<N>(),
    )[j];
    let alone = line_blur(lines[j], radius, unpack_fn(), repack_fn());
    assert forall|k: int| 0 <= k < count implies side_by_side[k] == alone[k] by {
        let channels = blurred_at(values, radius, k);
        lemma_lane_of_blurred(values, radius, k, j);
        lemma_lanes_from::<u32, N>(
            |m: int|
                crate::color::packed(
                    channels.alpha.0[m],
                    channels.red.0[m],
                    channels.green.0[m],
                    channels.blue.0[m],
                ),
        );
        assert(repacked_lanes(channels)[j] == repacked(lane_of(channels, j)));
    }
    assert(side_by_side =~= alone);
}

/// After a pass with several lines of packed colours side by side, every
/// line is the blur of the line it was, as long as the sum of the weights
/// fits in 32 bits.
pub proof fn lemma_pass_parity<const N: usize>(
    src: Seq<u32>,
    dst: Seq<u32>,
    lines: nat,
    count: nat,
    line_step: int,
    step: int,
    radius: nat,
    l: int,
)
    requires
        N >= 1,
        pass_computed(
            src,
            dst,
            lines,
            count,
            line_step,
            step,
            radius,
            unpack_lanes_fn::<N>(),
            repack_lanes_fn::<N>(),
            unpack_fn(),
            repack_fn(),
        ),
        divisor(radius) <= u32::MAX,
        0 <= l < lines,
    ensures
        pass_line(dst, l, line_step, step, count) == line_blur(
            pass_line(src, l, line_step, step, count),
            radius,
            unpack_fn(),
            repack_fn(),
        ),
{
    let lanes = N as nat;
    let groups = lines / lanes;
    if l < groups * lanes {
        let g = l / (lanes as int);
        let j = l % (lanes as int);
        vstd::arithmetic::div_mod::lemma_fundamental_div_mod(l, lanes as int);
        vstd::arithmetic::div_mod::lemma_div_pos_is_pos(l, lanes as int);
        assert(g < groups) by (nonlinear_arith)
            requires
                l < groups * lanes,
                l == lanes * g + j,
                0 <= j,
                lanes > 0,
        ;
        assert(g * lanes * line_step + j * line_step == l * line_step) by (nonlinear_arith)
            requires
                l == lanes * g + j,
        ;
        let before = group_lines(src, g, line_step, step, lanes, count);
        let after = group_lines(dst, g, line_step, step, lanes, count);
        assert(after == lanes_blur(
            before,
            count,
            radius,
            unpack_lanes_fn::<N>(),
            repack_lanes_fn::<N>(),
        ));
        lemma_group_line_parity::<N>(before, count, radius, j);
        assert(before[j] == pass_line(src, l, line_step, step, count));
        assert(after[j] == pass_line(dst, l, line_step, step, count));
    }
}

/// Blurring a frame of packed colours with several lines side by side gives
/// what blurring it line by line gives, as long as the sum of the weights
/// fits in 32 bits.
pub proof fn lemma_simd_parity<const N: usize>(
    src: Seq<u32>,
    dst: Seq<u32>,
    width: nat,
    height: nat,
    stride: nat,
    radius: nat,
)
    requires
        N >= 1,
        frame_fits(src.len(), width, height, stride),
        divisor(radius) <= u32::MAX,
        simd_frame_computed(
            src,
            dst,
            width,
            height,
            stride,
            radius,
            unpack_lanes_fn::<N>(),
            repack_lanes_fn::<N>(),
            unpack_fn(),
            repack_fn(),
        ),
    ensures
        dst == frame_blur(src, width, height, stride, radius, unpack_fn(), repack_fn()),
{
    let s = stride as int;
    let mid = choose|mid: Seq<u32>| #[trigger]
        pass_computed(
            src,
            mid,
            height,
            width,
            s,
            1,
            radius,
            unpack_lanes_fn::<N>(),
            repack_lanes_fn::<N>(),
            unpack_fn(),
            repack_fn(),
        ) && pass_computed(
            mid,
            dst,
            width,
            height,
            1,
            s,
            radius,
            unpack_lanes_fn::<N>(),
            repack_lanes_fn::<N>(),
            unpack_fn(),
            repack_fn(),
        );
    let rows = rows_blur(src, width, height, stride, radius, unpack_fn(), repack_fn());
    assert forall|i: int| 0 <= i < src.len() implies mid[i] == rows[i] by {
        if in_frame(i, width, height, stride) {
            lemma_frame_position(i, src.len(), width, height, stride);
            let y = i / s;
            lemma_pass_parity::<N>(src, mid, height, width, s, 1, radius, y);
            assert(pass_line(mid, y, s, 1, width) == row(mid, y, width, stride));
            assert(pass_line(src, y, s, 1, width) == row(src, y, width, stride));
            assert(row(mid, y, width, stride)[i % s] == mid[i]);
        } else {
            if on_lanes(i, 0, s, 1, height, width) {
                let (l, k) = choose|l: int, k: int|
                    0 <= l < height && 0 <= k < width && i == #[trigger] lane_position(
                        0,
                        s,
                        1,
                        l,
                        k,
                    );
                lemma_pixel_position(k, l, src.len(), width, height, stride);
            }
        }
    }
    assert(mid =~= rows);
    let columns = columns_blur(mid, width, height, stride, radius, unpack_fn(), repack_fn());
    assert forall|i: int| 0 <= i < src.len() implies dst[i] == columns[i] by {
        if in_frame(i, width, height, stride) {
            lemma_frame_position(i, src.len(), width, height, stride);
            let x = i % s;
            lemma_pass_parity::<N>(mid, dst, width, height, 1, s, radius, x);
            assert(pass_line(dst, x, 1, s, height) == column(dst, x, height, stride));
            assert(pass_line(mid, x, 1, s, height) == column(mid, x, height, stride));
            assert(column(dst, x, height, stride)[i / s] == dst[i]);
        } else {
            if on_lanes(i, 0, 1, s, width, height) {
                let (l, k) = choose|l: int, k: int|
                    0 <= l < width && 0 <= k < height && i == #[trigger] lane_position(
                        0,
                        1,
                        s,
                        l,
                        k,
                    );
                lemma_pixel_position(l, k, src.len(), width, height, stride);
            }
        }
    }
    assert(dst =~= columns);
}

} // verus!
