//! What a blur computes when its conversions are functions.
//!
//! The drivers take closures, and a closure's contract may allow more than
//! one result. Where each conversion has exactly one result for every
//! argument, the blurred frame is a function of the frame, the radius and the
//! two conversions. This module states that function and proves that the
//! drivers compute it.

use crate::frame::{
    column, columns_blurred, converted, frame_blurred, frame_fits, in_frame, lemma_pixel_position,
    line_blurred, restored, row, rows_blurred,
};
use crate::arrays::{lanes_from, lemma_lanes_of_array};
use crate::lanes::{
    group_lines, lane_position, lanes_blurred, lanes_witness, on_lanes, pass_blurred, pass_line,
    simd_frame_blurred,
};
use crate::traits::StackBlurrable;
use crate::window::blurred_at;
use vstd::prelude::*;

verus! {

/// Whether `into` says what `to_blurrable` returns for every pixel.
pub open spec fn computes_value<T, B, F: Fn(&T) -> B>(
    to_blurrable: F,
    into: spec_fn(T) -> B,
) -> bool {
    forall|pixel: &T, value: B| #[trigger]
        to_blurrable.ensures((pixel,), value) ==> value == into(*pixel)
}

/// Whether `back` says what `to_pixel` returns for every value.
pub open spec fn computes_pixel<T, B, G: Fn(B) -> T>(to_pixel: G, back: spec_fn(B) -> T) -> bool {
    forall|value: B, pixel: T| #[trigger] to_pixel.ensures((value,), pixel) ==> pixel == back(value)
}

/// The blur of one line: every pixel is turned into a value by `into`, the
/// values are blurred, and `back` turns each blurred value into a pixel.
pub open spec fn line_blur<T, B: StackBlurrable>(
    src: Seq<T>,
    radius: nat,
    into: spec_fn(T) -> B,
    back: spec_fn(B) -> T,
) -> Seq<T> {
    Seq::new(src.len(), |k: int| back(blurred_at(src.map_values(into), radius, k)))
}

/// The buffer with every row of the frame blurred.
pub open spec fn rows_blur<T, B: StackBlurrable>(
    src: Seq<T>,
    width: nat,
    height: nat,
    stride: nat,
    radius: nat,
    into: spec_fn(T) -> B,
    back: spec_fn(B) -> T,
) -> Seq<T> {
    Seq::new(
        src.len(),
        |i: int|
            if in_frame(i, width, height, stride) {
                line_blur(row(src, i / (stride as int), width, stride), radius, into, back)[i % (
                stride as int)]
            } else {
                src[i]
            },
    )
}

/// The buffer with every column of the frame blurred.
pub open spec fn columns_blur<T, B: StackBlurrable>(
    src: Seq<T>,
    width: nat,
    height: nat,
    stride: nat,
    radius: nat,
    into: spec_fn(T) -> B,
    back: spec_fn(B) -> T,
) -> Seq<T> {
    Seq::new(
        src.len(),
        |i: int|
            if in_frame(i, width, height, stride) {
                line_blur(column(src, i % (stride as int), height, stride), radius, into, back)[i
                    / (stride as int)]
            } else {
                src[i]
            },
    )
}

/// The blurred frame: every row blurred, and then every column of what the
/// rows have become.
pub open spec fn frame_blur<T, B: StackBlurrable>(
    src: Seq<T>,
    width: nat,
    height: nat,
    stride: nat,
    radius: nat,
    into: spec_fn(T) -> B,
    back: spec_fn(B) -> T,
) -> Seq<T> {
    columns_blur(
        rows_blur(src, width, height, stride, radius, into, back),
        width,
        height,
        stride,
        radius,
        into,
        back,
    )
}

/// A line that is a blur of `src` under conversions that are functions is the
/// blur of `src`.
pub proof fn lemma_line_blurred_exact<T, B: StackBlurrable, F: Fn(&T) -> B, G: Fn(B) -> T>(
    src: Seq<T>,
    dst: Seq<T>,
    radius: nat,
    to_blurrable: F,
    to_pixel: G,
    into: spec_fn(T) -> B,
    back: spec_fn(B) -> T,
)
    requires
        line_blurred(src, dst, radius, to_blurrable, to_pixel),
        computes_value(to_blurrable, into),
        computes_pixel(to_pixel, back),
    ensures
        dst == line_blur(src, radius, into, back),
{
    let values = choose|values: Seq<B>| #[trigger]
        converted(to_blurrable, src, values) && restored(to_pixel, values, radius, dst);
    assert(values =~= src.map_values(into)) by {
        assert forall|k: int| 0 <= k < src.len() implies values[k] == into(src[k]) by {
            assert(to_blurrable.ensures((&src[k],), values[k]));
        }
    }
    assert(dst =~= line_blur(src, radius, into, back)) by {
        assert forall|k: int| 0 <= k < src.len() implies dst[k] == back(
            blurred_at(values, radius, k),
        ) by {
            assert(to_pixel.ensures((blurred_at(values, radius, k),), dst[k]));
        }
    }
}

/// A position of the frame, taken apart into its row and its column and put
/// together again.
pub proof fn lemma_frame_position(i: int, len: nat, width: nat, height: nat, stride: nat)
    requires
        frame_fits(len, width, height, stride),
        in_frame(i, width, height, stride),
    ensures
        0 <= i / (stride as int) < height,
        0 <= i % (stride as int) < width,
        i == (i / (stride as int)) * stride + i % (stride as int),
        0 <= i < len,
{
    let s = stride as int;
    vstd::arithmetic::div_mod::lemma_fundamental_div_mod(i, s);
    vstd::arithmetic::div_mod::lemma_div_pos_is_pos(i, s);
    assert((i / s) * s == s * (i / s)) by (nonlinear_arith);
    lemma_pixel_position(i % s, i / s, len, width, height, stride);
}

/// A buffer whose rows are blurs of the rows of `src` under conversions that
/// are functions is `rows_blur` of `src`.
pub proof fn lemma_rows_blurred_exact<T, B: StackBlurrable, F: Fn(&T) -> B, G: Fn(B) -> T>(
    src: Seq<T>,
    dst: Seq<T>,
    width: nat,
    height: nat,
    stride: nat,
    radius: nat,
    to_blurrable: F,
    to_pixel: G,
    into: spec_fn(T) -> B,
    back: spec_fn(B) -> T,
)
    requires
        frame_fits(src.len(), width, height, stride),
        rows_blurred(src, dst, width, height, stride, radius, to_blurrable, to_pixel),
        computes_value(to_blurrable, into),
        computes_pixel(to_pixel, back),
    ensures
        dst == rows_blur(src, width, height, stride, radius, into, back),
{
    let expected = rows_blur(src, width, height, stride, radius, into, back);
    assert forall|i: int| 0 <= i < src.len() implies dst[i] == expected[i] by {
        if in_frame(i, width, height, stride) {
            let s = stride as int;
            lemma_frame_position(i, src.len(), width, height, stride);
            let y = i / s;
            assert(line_blurred(
                row(src, y, width, stride),
                row(dst, y, width, stride),
                radius,
                to_blurrable,
                to_pixel,
            ));
            lemma_line_blurred_exact(
                row(src, y, width, stride),
                row(dst, y, width, stride),
                radius,
                to_blurrable,
                to_pixel,
                into,
                back,
            );
            assert(row(dst, y, width, stride)[i % s] == dst[i]);
        }
    }
    assert(dst =~= expected);
}

/// A buffer whose columns are blurs of the columns of `src` under conversions
/// that are functions is `columns_blur` of `src`.
pub proof fn lemma_columns_blurred_exact<T, B: StackBlurrable, F: Fn(&T) -> B, G: Fn(B) -> T>(
    src: Seq<T>,
    dst: Seq<T>,
    width: nat,
    height: nat,
    stride: nat,
    radius: nat,
    to_blurrable: F,
    to_pixel: G,
    into: spec_fn(T) -> B,
    back: spec_fn(B) -> T,
)
    requires
        frame_fits(src.len(), width, height, stride),
        columns_blurred(src, dst, width, height, stride, radius, to_blurrable, to_pixel),
        computes_value(to_blurrable, into),
        computes_pixel(to_pixel, back),
    ensures
        dst == columns_blur(src, width, height, stride, radius, into, back),
{
    let expected = columns_blur(src, width, height, stride, radius, into, back);
    assert forall|i: int| 0 <= i < src.len() implies dst[i] == expected[i] by {
        if in_frame(i, width, height, stride) {
            let s = stride as int;
            lemma_frame_position(i, src.len(), width, height, stride);
            let x = i % s;
            assert(line_blurred(
                column(src, x, height, stride),
                column(dst, x, height, stride),
                radius,
                to_blurrable,
                to_pixel,
            ));
            lemma_line_blurred_exact(
                column(src, x, height, stride),
                column(dst, x, height, stride),
                radius,
                to_blurrable,
                to_pixel,
                into,
                back,
            );
            assert(column(dst, x, height, stride)[i / s] == dst[i]);
        }
    }
    assert(dst =~= expected);
}

/// A buffer that is a blur of the frame in `src` under conversions that are
/// functions is `frame_blur` of `src`.
pub proof fn lemma_frame_blurred_exact<T, B: StackBlurrable, F: Fn(&T) -> B, G: Fn(B) -> T>(
    src: Seq<T>,
    dst: Seq<T>,
    width: nat,
    height: nat,
    stride: nat,
    radius: nat,
    to_blurrable: F,
    to_pixel: G,
    into: spec_fn(T) -> B,
    back: spec_fn(B) -> T,
)
    requires
        frame_fits(src.len(), width, height, stride),
        frame_blurred(src, dst, width, height, stride, radius, to_blurrable, to_pixel),
        computes_value(to_blurrable, into),
        computes_pixel(to_pixel, back),
    ensures
        dst == frame_blur(src, width, height, stride, radius, into, back),
{
    let mid = choose|mid: Seq<T>| #[trigger]
        rows_blurred(src, mid, width, height, stride, radius, to_blurrable, to_pixel)
            && columns_blurred(mid, dst, width, height, stride, radius, to_blurrable, to_pixel);
    lemma_rows_blurred_exact(
        src,
        mid,
        width,
        height,
        stride,
        radius,
        to_blurrable,
        to_pixel,
        into,
        back,
    );
    lemma_columns_blurred_exact(
        mid,
        dst,
        width,
        height,
        stride,
        radius,
        to_blurrable,
        to_pixel,
        into,
        back,
    );
}

/// Whether `into` says what `to_blurrable` returns for every array of
/// pixels.
pub open spec fn computes_lanes_value<T, B, F: Fn([&T; LANES]) -> B, const LANES: usize>(
    to_blurrable: F,
    into: spec_fn([&T; LANES]) -> B,
) -> bool {
    forall|pixels: [&T; LANES], value: B| #[trigger]
        to_blurrable.ensures((pixels,), value) ==> value == into(pixels)
}

/// Whether `back` says what `to_pixel` returns for every value.
pub open spec fn computes_lanes_pixel<T, B, G: Fn(B) -> [T; LANES], const LANES: usize>(
    to_pixel: G,
    back: spec_fn(B) -> [T; LANES],
) -> bool {
    forall|value: B, pixels: [T; LANES]| #[trigger]
        to_pixel.ensures((value,), pixels) ==> pixels == back(value)
}

/// The values of a group of lines: value `k` is what `into` makes of element
/// `k` of every line.
pub open spec fn group_values<T, B, const LANES: usize>(
    lines: Seq<Seq<T>>,
    count: nat,
    into: spec_fn([&T; LANES]) -> B,
) -> Seq<B> {
    Seq::new(count, |k: int| into(lanes_from(|j: int| &lines[j][k])))
}

/// The blur of a group of lines side by side: element `k` of line `j` is lane
/// `j` of what `back` makes of the blurred value at `k`.
pub open spec fn lanes_blur<T, B: StackBlurrable, const LANES: usize>(
    lines: Seq<Seq<T>>,
    count: nat,
    radius: nat,
    into: spec_fn([&T; LANES]) -> B,
    back: spec_fn(B) -> [T; LANES],
) -> Seq<Seq<T>> {
    Seq::new(
        LANES as nat,
        |j: int|
            Seq::new(
                count,
                |k: int| back(blurred_at(group_values(lines, count, into), radius, k))[j],
            ),
    )
}

/// Whether `dst` is `src` after one pass with conversions that are functions:
/// every full group of `LANES` lines is the blur of the group side by side,
/// every line that is left over is the blur of the line, and whatever belongs
/// to no line is as it was.
pub open spec fn pass_computed<T, BS: StackBlurrable, B1: StackBlurrable, const LANES: usize>(
    src: Seq<T>,
    dst: Seq<T>,
    lines: nat,
    count: nat,
    line_step: int,
    step: int,
    radius: nat,
    into_simd: spec_fn([&T; LANES]) -> BS,
    back_simd: spec_fn(BS) -> [T; LANES],
    into_single: spec_fn(T) -> B1,
    back_single: spec_fn(B1) -> T,
) -> bool {
    &&& dst.len() == src.len()
    &&& forall|g: int|
        0 <= g < lines / (LANES as nat) ==> #[trigger] group_lines(
            dst,
            g,
            line_step,
            step,
            LANES as nat,
            count,
        ) == lanes_blur(
            group_lines(src, g, line_step, step, LANES as nat, count),
            count,
            radius,
            into_simd,
            back_simd,
        )
    &&& forall|l: int|
        (lines / (LANES as nat)) * LANES <= l < lines ==> #[trigger] pass_line(
            dst,
            l,
            line_step,
            step,
            count,
        ) == line_blur(pass_line(src, l, line_step, step, count), radius, into_single, back_single)
    &&& forall|i: int|
        0 <= i < src.len() && !on_lanes(i, 0, line_step, step, lines, count) ==> #[trigger] dst[i]
            == src[i]
}

/// Whether `dst` is the frame in `src` blurred with `LANES` lines side by
/// side by conversions that are functions: a pass over the rows, then a pass
/// over the columns of what the rows have become.
pub open spec fn simd_frame_computed<
    T,
    BS: StackBlurrable,
    B1: StackBlurrable,
    const LANES: usize,
>(
    src: Seq<T>,
    dst: Seq<T>,
    width: nat,
    height: nat,
    stride: nat,
    radius: nat,
    into_simd: spec_fn([&T; LANES]) -> BS,
    back_simd: spec_fn(BS) -> [T; LANES],
    into_single: spec_fn(T) -> B1,
    back_single: spec_fn(B1) -> T,
) -> bool {
    exists|mid: Seq<T>| #[trigger]
        pass_computed(
            src,
            mid,
            height,
            width,
            stride as int,
            1,
            radius,
            into_simd,
            back_simd,
            into_single,
            back_single,
        ) && pass_computed(
            mid,
            dst,
            width,
            height,
            1,
            stride as int,
            radius,
            into_simd,
            back_simd,
            into_single,
            back_single,
        )
}

/// A group of lines that is a blur of `src` under conversions that are
/// functions is the blur of `src`.
pub proof fn lemma_lanes_blurred_exact<
    T,
    B: StackBlurrable,
    F: Fn([&T; LANES]) -> B,
    G: Fn(B) -> [T; LANES],
    const LANES: usize,
>(
    src: Seq<Seq<T>>,
    dst: Seq<Seq<T>>,
    count: nat,
    radius: nat,
    to_blurrable: F,
    to_pixel: G,
    into: spec_fn([&T; LANES]) -> B,
    back: spec_fn(B) -> [T; LANES],
)
    requires
        lanes_blurred(src, dst, count, radius, to_blurrable, to_pixel),
        computes_lanes_value(to_blurrable, into),
        computes_lanes_pixel(to_pixel, back),
    ensures
        dst == lanes_blur(src, count, radius, into, back),
{
    let (values, inputs, outputs) = choose|
        values: Seq<B>,
        inputs: Seq<[&T; LANES]>,
        outputs: Seq<[T; LANES]>,
    | #[trigger]
        lanes_witness(
            src,
            dst,
            count,
            radius,
            to_blurrable,
            to_pixel,
            values,
            inputs,
            outputs,
        );
    let expected = group_values(src, count, into);
    assert(values =~= expected) by {
        assert forall|k: int| 0 <= k < count implies values[k] == expected[k] by {
            assert forall|j: int| 0 <= j < LANES implies inputs[k][j] == &src[j][k] by {
                assert(*inputs[k][j] == src[j][k]);
            }
            lemma_lanes_of_array(inputs[k], |j: int| &src[j][k]);
            assert(to_blurrable.ensures((inputs[k],), values[k]));
        }
    }
    let blur = lanes_blur(src, count, radius, into, back);
    assert forall|j: int| 0 <= j < LANES implies #[trigger] dst[j] =~= blur[j] by {
        assert forall|k: int| 0 <= k < count implies dst[j][k] == blur[j][k] by {
            assert(to_pixel.ensures((blurred_at(values, radius, k),), outputs[k]));
            assert(dst[j][k] == outputs[k][j]);
        }
    }
    assert(dst =~= blur);
}

/// A buffer that is `src` after one pass under conversions that are
/// functions is `src` after the pass that these functions compute.
pub proof fn lemma_pass_blurred_exact<
    T,
    BS: StackBlurrable,
    B1: StackBlurrable,
    FS: Fn([&T; LANES]) -> BS,
    GS: Fn(BS) -> [T; LANES],
    F1: Fn(&T) -> B1,
    G1: Fn(B1) -> T,
    const LANES: usize,
>(
    src: Seq<T>,
    dst: Seq<T>,
    lines: nat,
    count: nat,
    line_step: int,
    step: int,
    radius: nat,
    to_blurrable_simd: FS,
    to_pixel_simd: GS,
    to_blurrable_single: F1,
    to_pixel_single: G1,
    into_simd: spec_fn([&T; LANES]) -> BS,
    back_simd: spec_fn(BS) -> [T; LANES],
    into_single: spec_fn(T) -> B1,
    back_single: spec_fn(B1) -> T,
)
    requires
        pass_blurred(
            src,
            dst,
            lines,
            count,
            line_step,
            step,
            radius,
            to_blurrable_simd,
            to_pixel_simd,
            to_blurrable_single,
            to_pixel_single,
        ),
        computes_lanes_value(to_blurrable_simd, into_simd),
        computes_lanes_pixel(to_pixel_simd, back_simd),
        computes_value(to_blurrable_single, into_single),
        computes_pixel(to_pixel_single, back_single),
    ensures
        pass_computed(
            src,
            dst,
            lines,
            count,
            line_step,
            step,
            radius,
            into_simd,
            back_simd,
            into_single,
            back_single,
        ),
{
    let lanes = LANES as nat;
    assert forall|g: int| 0 <= g < lines / lanes implies #[trigger] group_lines(
        dst,
        g,
        line_step,
        step,
        lanes,
        count,
    ) == lanes_blur(
        group_lines(src, g, line_step, step, lanes, count),
        count,
        radius,
        into_simd,
        back_simd,
    ) by {
        assert(lanes_blurred(
            group_lines(src, g, line_step, step, lanes, count),
            group_lines(dst, g, line_step, step, lanes, count),
            count,
            radius,
            to_blurrable_simd,
            to_pixel_simd,
        ));
        lemma_lanes_blurred_exact(
            group_lines(src, g, line_step, step, lanes, count),
            group_lines(dst, g, line_step, step, lanes, count),
            count,
            radius,
            to_blurrable_simd,
            to_pixel_simd,
            into_simd,
            back_simd,
        );
    }
    assert forall|l: int| (lines / lanes) * LANES <= l < lines implies #[trigger] pass_line(
        dst,
        l,
        line_step,
        step,
        count,
    ) == line_blur(pass_line(src, l, line_step, step, count), radius, into_single, back_single) by {
        assert(line_blurred(
            pass_line(src, l, line_step, step, count),
            pass_line(dst, l, line_step, step, count),
            radius,
            to_blurrable_single,
            to_pixel_single,
        ));
        lemma_line_blurred_exact(
            pass_line(src, l, line_step, step, count),
            pass_line(dst, l, line_step, step, count),
            radius,
            to_blurrable_single,
            to_pixel_single,
            into_single,
            back_single,
        );
    }
}

/// A buffer that is a blur of the frame in `src` with `LANES` lines side by
/// side, under conversions that are functions, is what these functions
/// compute.
pub proof fn lemma_simd_frame_blurred_exact<
    T,
    BS: StackBlurrable,
    B1: StackBlurrable,
    FS: Fn([&T; LANES]) -> BS,
    GS: Fn(BS) -> [T; LANES],
    F1: Fn(&T) -> B1,
    G1: Fn(B1) -> T,
    const LANES: usize,
>(
    src: Seq<T>,
    dst: Seq<T>,
    width: nat,
    height: nat,
    stride: nat,
    radius: nat,
    to_blurrable_simd: FS,
    to_pixel_simd: GS,
    to_blurrable_single: F1,
    to_pixel_single: G1,
    into_simd: spec_fn([&T; LANES]) -> BS,
    back_simd: spec_fn(BS) -> [T; LANES],
    into_single: spec_fn(T) -> B1,
    back_single: spec_fn(B1) -> T,
)
    requires
        simd_frame_blurred(
            src,
            dst,
            width,
            height,
            stride,
            radius,
            to_blurrable_simd,
            to_pixel_simd,
            to_blurrable_single,
            to_pixel_single,
        ),
        computes_lanes_value(to_blurrable_simd, into_simd),
        computes_lanes_pixel(to_pixel_simd, back_simd),
        computes_value(to_blurrable_single, into_single),
        computes_pixel(to_pixel_single, back_single),
    ensures
        simd_frame_computed(
            src,
            dst,
            width,
            height,
            stride,
            radius,
            into_simd,
            back_simd,
            into_single,
            back_single,
        ),
{
    let mid = choose|mid: Seq<T>| #[trigger]
        pass_blurred(
            src,
            mid,
            height,
            width,
            stride as int,
            1,
            radius,
            to_blurrable_simd,
            to_pixel_simd,
            to_blurrable_single,
            to_pixel_single,
        ) && pass_blurred(
            mid,
            dst,
            width,
            height,
            1,
            stride as int,
            radius,
            to_blurrable_simd,
            to_pixel_simd,
            to_blurrable_single,
            to_pixel_single,
        );
    lemma_pass_blurred_exact(
        src,
        mid,
        height,
        width,
        stride as int,
        1,
        radius,
        to_blurrable_simd,
        to_pixel_simd,
        to_blurrable_single,
        to_pixel_single,
        into_simd,
        back_simd,
        into_single,
        back_single,
    );
    lemma_pass_blurred_exact(
        mid,
        dst,
        width,
        height,
        1,
        stride as int,
        radius,
        to_blurrable_simd,
        to_pixel_simd,
        to_blurrable_single,
        to_pixel_single,
        into_simd,
        back_simd,
        into_single,
        back_single,
    );
}

/// A pass with conversions that are functions has one result: two buffers
/// that are both `src` after the pass are the same.
pub proof fn lemma_pass_computed_unique<
    T,
    BS: StackBlurrable,
    B1: StackBlurrable,
    const LANES: usize,
>(
    src: Seq<T>,
    first: Seq<T>,
    second: Seq<T>,
    lines: nat,
    count: nat,
    line_step: int,
    step: int,
    radius: nat,
    into_simd: spec_fn([&T; LANES]) -> BS,
    back_simd: spec_fn(BS) -> [T; LANES],
    into_single: spec_fn(T) -> B1,
    back_single: spec_fn(B1) -> T,
)
    requires
        LANES >= 1,
        pass_computed(
            src,
            first,
            lines,
            count,
            line_step,
            step,
            radius,
            into_simd,
            back_simd,
            into_single,
            back_single,
        ),
        pass_computed(
            src,
            second,
            lines,
            count,
            line_step,
            step,
            radius,
            into_simd,
            back_simd,
            into_single,
            back_single,
        ),
    ensures
        first == second,
{
    let lanes = LANES as nat;
    let groups = lines / lanes;
    assert forall|i: int| 0 <= i < src.len() implies first[i] == second[i] by {
        if on_lanes(i, 0, line_step, step, lines, count) {
            let (l, k) = choose|l: int, k: int|
                0 <= l < lines && 0 <= k < count && i == #[trigger] lane_position(
                    0,
                    line_step,
                    step,
                    l,
                    k,
                );
            if l < groups * lanes {
                let g = l / (lanes as int);
                let j = l % (lanes as int);
                vstd::arithmetic::div_mod::lemma_fundamental_div_mod(l, lanes as int);
                vstd::arithmetic::div_mod::lemma_div_pos_is_pos(l, lanes as int);
                assert(g < groups) by (nonlinear_arith)
                    requires
                        l < groups * lanes,
                        l == lanes * g + j,
                        0 <= j,
                        lanes > 0,
                ;
                assert(g * lanes * line_step + j * line_step == l * line_step)
                    by (nonlinear_arith)
                    requires
                        l == lanes * g + j,
                ;
                let one = group_lines(first, g, line_step, step, lanes, count);
                let other = group_lines(second, g, line_step, step, lanes, count);
                assert(one == other);
                assert(one[j][k] == first[i]);
                assert(other[j][k] == second[i]);
            } else {
                let one = pass_line(first, l, line_step, step, count);
                let other = pass_line(second, l, line_step, step, count);
                assert(one == other);
                assert(one[k] == first[i]);
                assert(other[k] == second[i]);
            }
        }
    }
    assert(first =~= second);
}

/// A blur with conversions that are functions has one result: two buffers
/// that are both the frame in `src` blurred with `LANES` lines side by side
/// are the same.
pub proof fn lemma_simd_frame_computed_unique<
    T,
    BS: StackBlurrable,
    B1: StackBlurrable,
    const LANES: usize,
>(
    src: Seq<T>,
    first: Seq<T>,
    second: Seq<T>,
    width: nat,
    height: nat,
    stride: nat,
    radius: nat,
    into_simd: spec_fn([&T; LANES]) -> BS,
    back_simd: spec_fn(BS) -> [T; LANES],
    into_single: spec_fn(T) -> B1,
    back_single: spec_fn(B1) -> T,
)
    requires
        LANES >= 1,
        simd_frame_computed(
            src,
            first,
            width,
            height,
            stride,
            radius,
            into_simd,
            back_simd,
            into_single,
            back_single,
        ),
        simd_frame_computed(
            src,
            second,
            width,
            height,
            stride,
            radius,
            into_simd,
            back_simd,
            into_single,
            back_single,
        ),
    ensures
        first == second,
{
    let s = stride as int;
    let mid1 = choose|mid: Seq<T>| #[trigger]
        pass_computed(
            src,
            mid,
            height,
            width,
            s,
            1,
            radius,
            into_simd,
            back_simd,
            into_single,
            back_single,
        ) && pass_computed(
            mid,
            first,
            width,
            height,
            1,
            s,
            radius,
            into_simd,
            back_simd,
            into_single,
            back_single,
        );
    let mid2 = choose|mid: Seq<T>| #[trigger]
        pass_computed(
            src,
            mid,
            height,
            width,
            s,
            1,
            radius,
            into_simd,
            back_simd,
            into_single,
            back_single,
        ) && pass_computed(
            mid,
            second,
            width,
            height,
            1,
            s,
            radius,
            into_simd,
            back_simd,
            into_single,
            back_single,
        );
    lemma_pass_computed_unique(
        src,
        mid1,
        mid2,
        height,
        width,
        s,
        1,
        radius,
        into_simd,
        back_simd,
        into_single,
        back_single,
    );
    lemma_pass_computed_unique(
        mid1,
        first,
        second,
        width,
        height,
        1,
        s,
        radius,
        into_simd,
        back_simd,
        into_single,
        back_single,
    );
}

} // verus!
