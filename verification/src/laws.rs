//! Laws of the blur: what holds of every input.

use crate::color::{repacked, unpacked, BlurU32};
use crate::exact::{
    columns_blur, computes_pixel, computes_value, frame_blur, lemma_frame_blurred_exact,
    lemma_frame_position, line_blur, rows_blur,
};
use crate::frame::{column, frame_blurred, frame_fits, in_frame, row};
use crate::image::argb_blur;
use crate::iter::radius_fits;
use crate::parity::{repack_fn, unpack_fn};
use crate::traits::StackBlurrable;
use crate::values::{
    lemma_blurred_value, lemma_window_value_bounds, lemma_window_value_falls,
    lemma_window_value_rises, window_value,
};
use crate::window::{
    blurred, blurred_at, combination, divisor, lemma_combination_trim, lemma_times_one,
    lemma_triangle_total, lemma_uniform_combination, lemma_zero_plus, tap, triangle, weight,
    weighted_sum,
};
use vstd::arithmetic::div_mod::{lemma_div_is_ordered, lemma_div_multiples_vanish};
use vstd::prelude::*;

verus! {

/// A blur with radius zero is the identity: every element of the output is
/// the element of the input at its position.
pub proof fn lemma_radius_zero_is_identity<T: StackBlurrable>(input: Seq<T>)
    ensures
        blurred(input, 0) == input,
{
    assert forall|i: int| 0 <= i < input.len() implies blurred_at(input, 0, i) == input[i] by {
        let own = tap(input, i);
        let next = tap(input, i + 1);
        let weights = triangle(0, i);
        assert(combination(input, weights, i, i + 2) == T::zero_value().plus(
            own.times(weights(i)),
        ).plus(next.times(weights(i + 1)))) by {
            reveal_with_fuel(combination, 3);
        }
        lemma_times_one(own);
        lemma_zero_plus(own);
        T::lemma_times_unfolds(next, 0);
        T::lemma_plus_zero(own);
        T::lemma_over_one(own);
        assert(divisor(0) == 1) by (nonlinear_arith)
            requires
                divisor(0) == (0 + 1) * (0 + 1),
        ;
    }
    assert(blurred(input, 0) =~= input);
}

/// The blur of a sequence whose elements are all `value`: every element of the
/// output is `value` scaled by the sum of the weights and divided by it. The
/// positions before the first element and after the last count with the
/// value of the edge, so no element is diluted.
pub proof fn lemma_uniform_input<T: StackBlurrable>(input: Seq<T>, value: T, radius: nat, i: int)
    requires
        forall|j: int| 0 <= j < input.len() ==> input[j] == value,
        0 <= i < input.len(),
    ensures
        blurred(input, radius)[i] == value.times(divisor(radius)).over(divisor(radius) as usize),
{
    lemma_uniform_combination(input, value, triangle(radius, i), i - radius, i + radius + 2);
    lemma_triangle_total(radius, i);
}

/// No edge bleeding: the blur of a sequence of scalar accumulators that all
/// hold `value` is the sequence itself, as long as `value` scaled by the sum
/// of the weights fits in 32 bits.
pub proof fn lemma_uniform_input_unchanged(input: Seq<BlurU32>, value: BlurU32, radius: usize)
    requires
        radius_fits::<BlurU32>(radius),
        forall|j: int| 0 <= j < input.len() ==> input[j] == value,
        value.0 * divisor(radius as nat) <= u32::MAX,
    ensures
        blurred(input, radius as nat) == input,
{
    let d = divisor(radius as nat);
    let radius = radius as nat;
    assert forall|i: int| 0 <= i < input.len() implies blurred(input, radius)[i] == input[i] by {
        lemma_uniform_input(input, value, radius, i);
        lemma_scaled_and_divided(value, d as usize);
    }
    assert(blurred(input, radius) =~= input);
}

/// A scalar accumulator that is scaled by a count and divided by it again is
/// what it was, as long as the product fits in 32 bits.
pub proof fn lemma_scaled_and_divided(value: BlurU32, count: usize)
    requires
        BlurU32::can_divide_by(count),
        value.0 * count <= u32::MAX,
    ensures
        value.times(count as nat).over(count) == value,
{
    let by = crate::color::low_word(count);
    if value.0 == 0 {
        assert(value.0 * count == 0) by (nonlinear_arith)
            requires
                value.0 == 0,
        ;
        assert(0u32 / by == 0u32) by (nonlinear_arith)
            requires
                by > 0,
        ;
    } else {
        assert(count <= value.0 * count) by (nonlinear_arith)
            requires
                value.0 >= 1,
                count > 0,
        ;
        assert(by == count);
        assert((value.0 * count) / (count as int) == value.0) by (nonlinear_arith)
            requires
                count > 0,
        ;
    }
}

/// Splitting a packed colour into its channels and packing them again gives
/// the colour back.
pub proof fn lemma_argb_round_trip(pixel: u32)
    ensures
        repacked(unpacked(pixel)) == pixel,
{
    assert(((pixel >> 24) & 0xff) << 24 | (((pixel >> 16) & 0xff) & 0xff) << 16 | (((pixel >> 8)
        & 0xff) & 0xff) << 8 | ((pixel & 0xff) & 0xff) == pixel) by (bit_vector);
}

/// A blurred element lies between the least and the greatest element of the
/// input, as long as the greatest element times the sum of the weights fits
/// in 32 bits.
pub proof fn lemma_output_within_input(
    input: Seq<BlurU32>,
    radius: usize,
    least: int,
    greatest: int,
    i: int,
)
    requires
        radius_fits::<BlurU32>(radius),
        0 <= i < input.len(),
        forall|j: int| 0 <= j < input.len() ==> least <= (#[trigger] input[j]).0 <= greatest,
        greatest * divisor(radius as nat) <= u32::MAX,
    ensures
        least <= blurred(input, radius as nat)[i].0 <= greatest,
{
    let d = divisor(radius as nat) as int;
    lemma_blurred_value(input, radius, i, greatest);
    lemma_window_value_bounds(input, radius as nat, i, least, greatest);
    let total = window_value(input, radius as nat, i);
    assert(d > 0) by (nonlinear_arith)
        requires
            d == (radius + 1) * (radius + 1),
    ;
    lemma_div_is_ordered(least * d, total, d);
    lemma_div_is_ordered(total, greatest * d, d);
    lemma_div_multiples_vanish(least, d);
    lemma_div_multiples_vanish(greatest, d);
    assert(least * d == d * least && greatest * d == d * greatest) by (nonlinear_arith);
}

/// Blurring keeps the order of a rising input: where no element of the input
/// is less than the one before it, no element of the output is, as long as
/// the greatest element times the sum of the weights fits in 32 bits.
pub proof fn lemma_rising_input_rises(input: Seq<BlurU32>, radius: usize, greatest: int, i: int)
    requires
        radius_fits::<BlurU32>(radius),
        0 <= i,
        i + 1 < input.len(),
        forall|a: int, b: int|
            0 <= a <= b < input.len() ==> (#[trigger] input[a]).0 <= (#[trigger] input[b]).0,
        forall|j: int| 0 <= j < input.len() ==> (#[trigger] input[j]).0 <= greatest,
        greatest * divisor(radius as nat) <= u32::MAX,
    ensures
        blurred(input, radius as nat)[i].0 <= blurred(input, radius as nat)[i + 1].0,
{
    let d = divisor(radius as nat) as int;
    lemma_blurred_value(input, radius, i, greatest);
    lemma_blurred_value(input, radius, i + 1, greatest);
    lemma_window_value_rises(input, radius as nat, i);
    assert(d > 0) by (nonlinear_arith)
        requires
            d == (radius + 1) * (radius + 1),
    ;
    lemma_div_is_ordered(
        window_value(input, radius as nat, i),
        window_value(input, radius as nat, i + 1),
        d,
    );
}

/// Blurring keeps the order of a falling input: where no element of the input
/// is greater than the one before it, no element of the output is, as long as
/// the greatest element times the sum of the weights fits in 32 bits.
pub proof fn lemma_falling_input_falls(input: Seq<BlurU32>, radius: usize, greatest: int, i: int)
    requires
        radius_fits::<BlurU32>(radius),
        0 <= i,
        i + 1 < input.len(),
        forall|a: int, b: int|
            0 <= a <= b < input.len() ==> (#[trigger] input[a]).0 >= (#[trigger] input[b]).0,
        forall|j: int| 0 <= j < input.len() ==> (#[trigger] input[j]).0 <= greatest,
        greatest * divisor(radius as nat) <= u32::MAX,
    ensures
        blurred(input, radius as nat)[i].0 >= blurred(input, radius as nat)[i + 1].0,
{
    let d = divisor(radius as nat) as int;
    lemma_blurred_value(input, radius, i, greatest);
    lemma_blurred_value(input, radius, i + 1, greatest);
    lemma_window_value_falls(input, radius as nat, i);
    assert(d > 0) by (nonlinear_arith)
        requires
            d == (radius + 1) * (radius + 1),
    ;
    lemma_div_is_ordered(
        window_value(input, radius as nat, i + 1),
        window_value(input, radius as nat, i),
        d,
    );
}

/// Where every tap within `radius` positions of an element holds the same
/// value, the blurred element is that value, as long as the value times the
/// sum of the weights fits in 32 bits.
pub proof fn lemma_constant_window(input: Seq<BlurU32>, radius: usize, value: BlurU32, i: int)
    requires
        radius_fits::<BlurU32>(radius),
        0 <= i < input.len(),
        forall|j: int| i - radius <= j <= i + radius ==> #[trigger] tap(input, j) == value,
        value.0 * divisor(radius as nat) <= u32::MAX,
    ensures
        blurred(input, radius as nat)[i] == value,
{
    let r = radius as nat;
    let weights = triangle(r, i);
    assert(weights(i + r + 1) == weight(r, r as int + 1));
    lemma_combination_trim(input, weights, i - r, i - r, i + r + 1, i + r + 2);
    lemma_uniform_combination(input, value, weights, i - r, i + r + 1);
    lemma_triangle_total(r, i);
    assert(crate::window::coefficient_sum(weights, i - r, i + r + 2)
        == crate::window::coefficient_sum(weights, i - r, i + r + 1));
    lemma_scaled_and_divided(value, divisor(r) as usize);
}

/// A sequence of `len` elements that holds `before` up to the position `jump`
/// and `after` from there on.
pub open spec fn step_input(len: nat, jump: int, before: u32, after: u32) -> Seq<BlurU32> {
    Seq::new(
        len,
        |j: int|
            if j < jump {
                BlurU32(before)
            } else {
                BlurU32(after)
            },
    )
}

/// The blur of a step is a ramp. Further than `radius` positions before the
/// jump the output is `before`, from `radius` positions after the jump on it
/// is `after`, and in between it moves from the one to the other without ever
/// turning back or leaving the range between the two, as long as both values
/// times the sum of the weights fit in 32 bits.
pub proof fn lemma_step_input(
    len: nat,
    jump: int,
    before: u32,
    after: u32,
    radius: usize,
    i: int,
)
    requires
        radius_fits::<BlurU32>(radius),
        0 <= i < len,
        before * divisor(radius as nat) <= u32::MAX,
        after * divisor(radius as nat) <= u32::MAX,
    ensures
        ({
            let output = blurred(step_input(len, jump, before, after), radius as nat);
            &&& i + radius < jump ==> output[i].0 == before
            &&& i - radius >= jump ==> output[i].0 == after
            &&& before <= after ==> before <= output[i].0 <= after
            &&& before >= after ==> after <= output[i].0 <= before
            &&& before <= after && i + 1 < len ==> output[i].0 <= output[i + 1].0
            &&& before >= after && i + 1 < len ==> output[i].0 >= output[i + 1].0
        }),
{
    let input = step_input(len, jump, before, after);
    if i + radius < jump {
        assert forall|j: int| i - radius <= j <= i + radius implies #[trigger] tap(input, j)
            == BlurU32(before) by {}
        lemma_constant_window(input, radius, BlurU32(before), i);
    }
    if i - radius >= jump {
        assert forall|j: int| i - radius <= j <= i + radius implies #[trigger] tap(input, j)
            == BlurU32(after) by {}
        lemma_constant_window(input, radius, BlurU32(after), i);
    }
    if before <= after {
        lemma_output_within_input(input, radius, before as int, after as int, i);
        if i + 1 < len {
            lemma_rising_input_rises(input, radius, after as int, i);
        }
    }
    if before >= after {
        lemma_output_within_input(input, radius, after as int, before as int, i);
        if i + 1 < len {
            lemma_falling_input_falls(input, radius, before as int, i);
        }
    }
}

/// A line that is blurred with radius zero by conversions that undo each
/// other is left as it was.
pub proof fn lemma_line_blur_radius_zero<T, B: StackBlurrable>(
    src: Seq<T>,
    into: spec_fn(T) -> B,
    back: spec_fn(B) -> T,
)
    requires
        forall|pixel: T| #[trigger] back(into(pixel)) == pixel,
    ensures
        line_blur(src, 0, into, back) == src,
{
    let values = src.map_values(into);
    lemma_radius_zero_is_identity(values);
    assert forall|k: int| 0 <= k < src.len() implies line_blur(src, 0, into, back)[k]
        == src[k] by {
        assert(blurred(values, 0)[k] == values[k]);
        assert(back(into(src[k])) == src[k]);
    }
    assert(line_blur(src, 0, into, back) =~= src);
}

/// A frame that is blurred with radius zero by conversions that undo each
/// other is left as it was.
pub proof fn lemma_frame_blur_radius_zero<T, B: StackBlurrable>(
    src: Seq<T>,
    width: nat,
    height: nat,
    stride: nat,
    into: spec_fn(T) -> B,
    back: spec_fn(B) -> T,
)
    requires
        frame_fits(src.len(), width, height, stride),
        forall|pixel: T| #[trigger] back(into(pixel)) == pixel,
    ensures
        frame_blur(src, width, height, stride, 0, into, back) == src,
{
    let s = stride as int;
    let rows = rows_blur(src, width, height, stride, 0, into, back);
    assert forall|i: int| 0 <= i < src.len() implies rows[i] == src[i] by {
        if in_frame(i, width, height, stride) {
            lemma_frame_position(i, src.len(), width, height, stride);
            lemma_line_blur_radius_zero(row(src, i / s, width, stride), into, back);
            assert(row(src, i / s, width, stride)[i % s] == src[i]);
        }
    }
    assert(rows =~= src);
    let columns = columns_blur(src, width, height, stride, 0, into, back);
    assert forall|i: int| 0 <= i < src.len() implies columns[i] == src[i] by {
        if in_frame(i, width, height, stride) {
            lemma_frame_position(i, src.len(), width, height, stride);
            lemma_line_blur_radius_zero(column(src, i % s, height, stride), into, back);
            assert(column(src, i % s, height, stride)[i / s] == src[i]);
        }
    }
    assert(columns =~= src);
}

/// Identity at radius zero: a blur with radius zero whose conversions hand
/// their argument back leaves the buffer as it was, element for element.
pub proof fn lemma_blur_radius_zero<B: StackBlurrable, F: Fn(&B) -> B, G: Fn(B) -> B>(
    src: Seq<B>,
    dst: Seq<B>,
    width: nat,
    height: nat,
    stride: nat,
    to_blurrable: F,
    to_pixel: G,
)
    requires
        frame_fits(src.len(), width, height, stride),
        frame_blurred(src, dst, width, height, stride, 0, to_blurrable, to_pixel),
        forall|pixel: &B, value: B| #[trigger]
            to_blurrable.ensures((pixel,), value) ==> value == *pixel,
        forall|value: B, pixel: B| #[trigger] to_pixel.ensures((value,), pixel) ==> pixel == value,
    ensures
        dst == src,
{
    let same = |value: B| value;
    assert(computes_value(to_blurrable, same));
    assert(computes_pixel(to_pixel, same));
    lemma_frame_blurred_exact(
        src,
        dst,
        width,
        height,
        stride,
        0,
        to_blurrable,
        to_pixel,
        same,
        same,
    );
    lemma_frame_blur_radius_zero(src, width, height, stride, same, same);
}

/// A frame of packed colours that is blurred with radius zero is left as it
/// was: every pixel is split into its channels and packed again.
pub proof fn lemma_argb_blur_radius_zero(pixels: Seq<u32>, width: nat, height: nat, stride: nat)
    requires
        frame_fits(pixels.len(), width, height, stride),
    ensures
        argb_blur(pixels, width, height, stride, 0) == pixels,
{
    assert forall|pixel: u32| #[trigger] repack_fn()(unpack_fn()(pixel)) == pixel by {
        lemma_argb_round_trip(pixel);
    }
    lemma_frame_blur_radius_zero(pixels, width, height, stride, unpack_fn(), repack_fn());
}

/// No edge bleeding in packed colours: a line of pixels that all hold the
/// same colour is left as it was by a blur with a radius of up to 4096. Up to
/// that radius no channel of a packed colour can make a sum wrap.
pub proof fn lemma_argb_uniform_line(line: Seq<u32>, colour: u32, radius: nat)
    requires
        radius <= 4096,
        forall|k: int| 0 <= k < line.len() ==> line[k] == colour,
    ensures
        line_blur(line, radius, unpack_fn(), repack_fn()) == line,
{
    let channels = unpacked(colour);
    let values = line.map_values(unpack_fn());
    let d = divisor(radius);
    assert(0 < d <= 4097 * 4097) by (nonlinear_arith)
        requires
            d == (radius + 1) * (radius + 1),
            radius <= 4096,
    ;
    assert(colour >> 24 <= 255 && (colour >> 16) & 0xff <= 255 && (colour >> 8) & 0xff <= 255
        && colour & 0xff <= 255) by (bit_vector);
    assert(crate::color::low_word(d as usize) == d);
    assert forall|channel: int| 0 <= channel <= 255 implies #[trigger] (channel * d)
        <= u32::MAX by {
        assert(channel * d <= 255 * (4097 * 4097)) by (nonlinear_arith)
            requires
                0 <= channel <= 255,
                0 < d <= 4097 * 4097,
        ;
    }
    assert(channels.alpha.0 * d <= u32::MAX);
    assert(channels.red.0 * d <= u32::MAX);
    assert(channels.green.0 * d <= u32::MAX);
    assert(channels.blue.0 * d <= u32::MAX);
    lemma_scaled_and_divided(channels.alpha, d as usize);
    lemma_scaled_and_divided(channels.red, d as usize);
    lemma_scaled_and_divided(channels.green, d as usize);
    lemma_scaled_and_divided(channels.blue, d as usize);
    lemma_argb_round_trip(colour);
    assert forall|k: int| 0 <= k < line.len() implies line_blur(
        line,
        radius,
        unpack_fn(),
        repack_fn(),
    )[k] == line[k] by {
        lemma_uniform_input(values, channels, radius, k);
    }
    assert(line_blur(line, radius, unpack_fn(), repack_fn()) =~= line);
}

/// No edge bleeding in packed colours: a frame whose pixels all hold the same
/// colour is left as it was by a blur with a radius of up to 4096.
pub proof fn lemma_argb_uniform_frame(
    pixels: Seq<u32>,
    width: nat,
    height: nat,
    stride: nat,
    radius: nat,
    colour: u32,
)
    requires
        frame_fits(pixels.len(), width, height, stride),
        radius <= 4096,
        forall|i: int|
            0 <= i < pixels.len() && in_frame(i, width, height, stride) ==> pixels[i] == colour,
    ensures
        argb_blur(pixels, width, height, stride, radius) == pixels,
{
    let s = stride as int;
    let rows = rows_blur(pixels, width, height, stride, radius, unpack_fn(), repack_fn());
    assert forall|i: int| 0 <= i < pixels.len() implies rows[i] == pixels[i] by {
        if in_frame(i, width, height, stride) {
            lemma_frame_position(i, pixels.len(), width, height, stride);
            let line = row(pixels, i / s, width, stride);
            assert forall|k: int| 0 <= k < line.len() implies line[k] == colour by {
                crate::frame::lemma_pixel_position(k, i / s, pixels.len(), width, height, stride);
            }
            lemma_argb_uniform_line(line, colour, radius);
            assert(line[i % s] == pixels[i]);
        }
    }
    assert(rows =~= pixels);
    let columns = columns_blur(pixels, width, height, stride, radius, unpack_fn(), repack_fn());
    assert forall|i: int| 0 <= i < pixels.len() implies columns[i] == pixels[i] by {
        if in_frame(i, width, height, stride) {
            lemma_frame_position(i, pixels.len(), width, height, stride);
            let line = column(pixels, i % s, height, stride);
            assert forall|k: int| 0 <= k < line.len() implies line[k] == colour by {
                crate::frame::lemma_pixel_position(i % s, k, pixels.len(), width, height, stride);
            }
            lemma_argb_uniform_line(line, colour, radius);
            assert(line[i / s] == pixels[i]);
        }
    }
    assert(columns =~= pixels);
}

} // verus!
