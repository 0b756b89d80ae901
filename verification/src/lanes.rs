//! Groups of lines that are blurred side by side, one lane each.
//!
//! A group is `LANES` lines of a strided buffer that lie `lane_step` elements
//! apart. Element `k` of the group is made of element `k` of each of its
//! lines, and the whole group goes through the engine as one sequence.

use crate::frame::{
    blur_line, frame_fits, lemma_empty_line_blurred, lemma_pixel_position, line, line_blurred,
    on_line,
};
use crate::iter::{radius_fits, StackBlur};
use crate::traits::StackBlurrable;
use crate::window::blurred_at;
use std::collections::VecDeque;
use vstd::prelude::*;

verus! {

/// The buffer position of element `k` of lane `j`.
pub open spec fn lane_position(start: int, lane_step: int, step: int, j: int, k: int) -> int {
    start + j * lane_step + k * step
}

/// Whether the buffer position `i` belongs to one of the lanes.
pub open spec fn on_lanes(
    i: int,
    start: int,
    lane_step: int,
    step: int,
    lanes: nat,
    count: nat,
) -> bool {
    exists|j: int, k: int|
        0 <= j < lanes && 0 <= k < count && i == #[trigger] lane_position(
            start,
            lane_step,
            step,
            j,
            k,
        )
}

/// Whether the lanes lie in a buffer of `len` elements and share no position.
pub open spec fn lanes_apart(
    len: nat,
    start: int,
    lane_step: int,
    step: int,
    lanes: nat,
    count: nat,
) -> bool {
    &&& forall|j: int, k: int|
        0 <= j < lanes && 0 <= k < count ==> 0 <= #[trigger] lane_position(
            start,
            lane_step,
            step,
            j,
            k,
        ) < len
    &&& forall|j: int, k: int, j2: int, k2: int|
        0 <= j < lanes && 0 <= k < count && 0 <= j2 < lanes && 0 <= k2 < count && (j != j2 || k
            != k2) ==> #[trigger] lane_position(start, lane_step, step, j, k)
            != #[trigger] lane_position(start, lane_step, step, j2, k2)
}

/// The lines of a group, lane by lane.
pub open spec fn lane_lines<T>(
    buffer: Seq<T>,
    start: int,
    lane_step: int,
    step: int,
    lanes: nat,
    count: nat,
) -> Seq<Seq<T>> {
    Seq::new(lanes, |j: int| line(buffer, start + j * lane_step, step, count))
}

/// Whether `values`, `inputs` and `outputs` show that the lines `dst` are a
/// blur of the lines `src`: `inputs[k]` refers to element `k` of every line of
/// `src`, `to_blurrable` can have made `values[k]` of it, `to_pixel` can have
/// made `outputs[k]` of the blurred value at `k`, and element `k` of every
/// line of `dst` is its lane of `outputs[k]`.
pub open spec fn lanes_witness<
    T,
    B: StackBlurrable,
    F: Fn([&T; LANES]) -> B,
    G: Fn(B) -> [T; LANES],
    const LANES: usize,
>(
    src: Seq<Seq<T>>,
    dst: Seq<Seq<T>>,
    count: nat,
    radius: nat,
    to_blurrable: F,
    to_pixel: G,
    values: Seq<B>,
    inputs: Seq<[&T; LANES]>,
    outputs: Seq<[T; LANES]>,
) -> bool {
    &&& values.len() == count
    &&& inputs.len() == count
    &&& outputs.len() == count
    &&& forall|k: int, j: int|
        0 <= k < count && 0 <= j < LANES ==> *(#[trigger] inputs[k][j]) == src[j][k]
    &&& forall|k: int| 0 <= k < count ==> to_blurrable.ensures((inputs[k],), #[trigger] values[k])
    &&& forall|k: int|
        0 <= k < count ==> to_pixel.ensures(
            (blurred_at(values, radius, k),),
            #[trigger] outputs[k],
        )
    &&& forall|k: int, j: int|
        0 <= k < count && 0 <= j < LANES ==> #[trigger] dst[j][k] == outputs[k][j]
}

/// Whether the group of lines `dst` is a blur of the group `src`, all lanes
/// side by side.
pub open spec fn lanes_blurred<
    T,
    B: StackBlurrable,
    F: Fn([&T; LANES]) -> B,
    G: Fn(B) -> [T; LANES],
    const LANES: usize,
>(
    src: Seq<Seq<T>>,
    dst: Seq<Seq<T>>,
    count: nat,
    radius: nat,
    to_blurrable: F,
    to_pixel: G,
) -> bool {
    &&& src.len() == LANES
    &&& dst.len() == LANES
    &&& forall|j: int| 0 <= j < LANES ==> (#[trigger] src[j]).len() == count
    &&& forall|j: int| 0 <= j < LANES ==> (#[trigger] dst[j]).len() == count
    &&& exists|values: Seq<B>, inputs: Seq<[&T; LANES]>, outputs: Seq<[T; LANES]>|
        #[trigger] lanes_witness(
            src,
            dst,
            count,
            radius,
            to_blurrable,
            to_pixel,
            values,
            inputs,
            outputs,
        )
}

/// Blurs a group of `LANES` lines of the buffer in place, side by side.
/// Element `k` of every line goes into one array, which `to_blurrable` turns
/// into one blurrable value; the values are blurred with the given radius, and
/// `to_pixel` turns each blurred value into an array whose lane `j` takes the
/// place of element `k` of line `j`. `values` and `ops` are scratch space:
/// what they held is dropped, and `ops` is handed back.
pub fn blur_lanes<
    T: Copy,
    B: StackBlurrable,
    F: Fn([&T; LANES]) -> B,
    G: Fn(B) -> [T; LANES],
    const LANES: usize,
>(
    buffer: &mut [T],
    start: usize,
    lane_step: usize,
    step: usize,
    count: usize,
    radius: usize,
    to_blurrable: &F,
    to_pixel: &G,
    values: &mut Vec<B>,
    ops: VecDeque<B>,
) -> (scratch: VecDeque<B>)
    requires
        LANES >= 1,
        lanes_apart(
            old(buffer)@.len(),
            start as int,
            lane_step as int,
            step as int,
            LANES as nat,
            count as nat,
        ),
        radius_fits::<B>(radius),
        forall|pixels: [&T; LANES]| #[trigger] to_blurrable.requires((pixels,)),
        forall|value: B| #[trigger] to_pixel.requires((value,)),
    ensures
        final(buffer)@.len() == old(buffer)@.len(),
        lanes_blurred(
            lane_lines(
                old(buffer)@,
                start as int,
                lane_step as int,
                step as int,
                LANES as nat,
                count as nat,
            ),
            lane_lines(
                final(buffer)@,
                start as int,
                lane_step as int,
                step as int,
                LANES as nat,
                count as nat,
            ),
            count as nat,
            radius as nat,
            *to_blurrable,
            *to_pixel,
        ),
        forall|i: int|
            0 <= i < old(buffer)@.len() && !on_lanes(
                i,
                start as int,
                lane_step as int,
                step as int,
                LANES as nat,
                count as nat,
            ) ==> final(buffer)@[i] == old(buffer)@[i],
        scratch@.len() == if count == 0 {
            0
        } else {
            2 * radius + 2
        },
{
    let ghost initial = buffer@;
    let ghost (s0, ls, st) = (start as int, lane_step as int, step as int);
    let ghost src = lane_lines(initial, s0, ls, st, LANES as nat, count as nat);
    let len = buffer.len();
    values.clear();
    let ghost mut inputs: Seq<[&T; LANES]> = Seq::empty();
    let mut k: usize = 0;
    while k < count
        invariant
            k <= count,
            LANES >= 1,
            initial.len() == len,
            (s0, ls, st) == (start as int, lane_step as int, step as int),
            lanes_apart(initial.len(), s0, ls, st, LANES as nat, count as nat),
            buffer@ == initial,
            src == lane_lines(initial, s0, ls, st, LANES as nat, count as nat),
            values@.len() == k,
            inputs.len() == k,
            forall|n: int, j: int|
                0 <= n < k && 0 <= j < LANES ==> *(#[trigger] inputs[n][j]) == src[j][n],
            forall|n: int| 0 <= n < k ==> to_blurrable.ensures((inputs[n],), #[trigger] values@[n]),
            forall|pixels: [&T; LANES]| #[trigger] to_blurrable.requires((pixels,)),
        decreases count - k,
    {
        proof {
            lemma_lane_offsets(initial.len(), s0, ls, st, LANES as nat, count as nat, 0, k as int);
        }
        let mut refs: [&T; LANES] = [&buffer[start + k * step];LANES];
        let mut j: usize = 1;
        while j < LANES
            invariant
                1 <= j <= LANES,
                k < count,
                initial.len() == len,
                (s0, ls, st) == (start as int, lane_step as int, step as int),
                lanes_apart(initial.len(), s0, ls, st, LANES as nat, count as nat),
                buffer@ == initial,
                forall|n: int|
                    0 <= n < j ==> *(#[trigger] refs[n]) == initial[lane_position(
                        s0,
                        ls,
                        st,
                        n,
                        k as int,
                    )],
            decreases LANES - j,
        {
            proof {
                lemma_lane_offsets(
                    initial.len(),
                    s0,
                    ls,
                    st,
                    LANES as nat,
                    count as nat,
                    j as int,
                    k as int,
                );
            }
            refs[j] = &buffer[start + j * lane_step + k * step];
            j += 1;
        }
        let value = to_blurrable(refs);
        proof {
            inputs = inputs.push(refs);
        }
        values.push(value);
        k += 1;
    }
    let mut engine = StackBlur::new(values.as_slice(), radius, ops);
    let ghost mut outputs: Seq<[T; LANES]> = Seq::empty();
    let mut k: usize = 0;
    while k < count
        invariant
            k <= count,
            LANES >= 1,
            initial.len() == len,
            (s0, ls, st) == (start as int, lane_step as int, step as int),
            lanes_apart(initial.len(), s0, ls, st, LANES as nat, count as nat),
            buffer@.len() == initial.len(),
            values@.len() == count,
            engine.wf(),
            engine.input() == values@,
            engine.radius() == radius as nat,
            engine.position() == k as nat,
            outputs.len() == k,
            forall|n: int|
                0 <= n < k ==> to_pixel.ensures(
                    (blurred_at(values@, radius as nat, n),),
                    #[trigger] outputs[n],
                ),
            forall|n: int, j: int|
                0 <= n < k && 0 <= j < LANES ==> buffer@[#[trigger] lane_position(s0, ls, st, j, n)]
                    == outputs[n][j],
            forall|i: int|
                0 <= i < initial.len() && !on_lanes(i, s0, ls, st, LANES as nat, count as nat)
                    ==> buffer@[i] == initial[i],
            forall|value: B| #[trigger] to_pixel.requires((value,)),
        decreases count - k,
    {
        if let Some(value) = engine.next() {
            let pixels = to_pixel(value);
            proof {
                outputs = outputs.push(pixels);
            }
            let mut j: usize = 0;
            while j < LANES
                invariant
                    j <= LANES,
                    k < count,
                    initial.len() == len,
                    (s0, ls, st) == (start as int, lane_step as int, step as int),
                    lanes_apart(initial.len(), s0, ls, st, LANES as nat, count as nat),
                    buffer@.len() == initial.len(),
                    outputs.len() == k + 1,
                    outputs[k as int] == pixels,
                    forall|n: int, m: int|
                        0 <= n < k && 0 <= m < LANES ==> buffer@[#[trigger] lane_position(
                            s0,
                            ls,
                            st,
                            m,
                            n,
                        )] == outputs[n][m],
                    forall|m: int|
                        0 <= m < j ==> buffer@[#[trigger] lane_position(s0, ls, st, m, k as int)]
                            == pixels[m],
                    forall|i: int|
                        0 <= i < initial.len() && !on_lanes(
                            i,
                            s0,
                            ls,
                            st,
                            LANES as nat,
                            count as nat,
                        ) ==> buffer@[i] == initial[i],
                decreases LANES - j,
            {
                proof {
                    lemma_lane_offsets(
                        initial.len(),
                        s0,
                        ls,
                        st,
                        LANES as nat,
                        count as nat,
                        j as int,
                        k as int,
                    );
                }
                buffer[start + j * lane_step + k * step] = pixels[j];
                j += 1;
            }
        }
        k += 1;
    }
    proof {
        let dst = lane_lines(buffer@, s0, ls, st, LANES as nat, count as nat);
        assert forall|n: int, j: int| 0 <= n < count && 0 <= j < LANES implies #[trigger] dst[j][n]
            == outputs[n][j] by {
            assert(dst[j][n] == buffer@[lane_position(s0, ls, st, j, n)]);
        }
        assert(lanes_witness(
            src,
            dst,
            count as nat,
            radius as nat,
            *to_blurrable,
            *to_pixel,
            values@,
            inputs,
            outputs,
        ));
    }
    engine.into_ops()
}

/// The position of element `k` of lane `j` is reached without overflow: both
/// products and both sums lie between zero and the length of the buffer.
pub proof fn lemma_lane_offsets(
    len: nat,
    start: int,
    lane_step: int,
    step: int,
    lanes: nat,
    count: nat,
    j: int,
    k: int,
)
    requires
        lanes_apart(len, start, lane_step, step, lanes, count),
        0 <= start,
        0 <= lane_step,
        0 <= step,
        0 <= j < lanes,
        0 <= k < count,
    ensures
        0 <= j * lane_step,
        0 <= k * step,
        start + j * lane_step + k * step == lane_position(start, lane_step, step, j, k),
        0 <= lane_position(start, lane_step, step, j, k) < len,
        on_lanes(lane_position(start, lane_step, step, j, k), start, lane_step, step, lanes, count),
{
    assert(0 <= j * lane_step) by (nonlinear_arith)
        requires
            0 <= j,
            0 <= lane_step,
    ;
    assert(0 <= k * step) by (nonlinear_arith)
        requires
            0 <= k,
            0 <= step,
    ;
}

/// Line `l` of a pass: the lines of a pass start `line_step` elements apart.
pub open spec fn pass_line<T>(buffer: Seq<T>, l: int, line_step: int, step: int, count: nat) -> Seq<
    T,
> {
    line(buffer, l * line_step, step, count)
}

/// The lines of group `g` of a pass: the `lanes` lines from line `g * lanes`
/// on.
pub open spec fn group_lines<T>(
    buffer: Seq<T>,
    g: int,
    line_step: int,
    step: int,
    lanes: nat,
    count: nat,
) -> Seq<Seq<T>> {
    lane_lines(buffer, g * lanes * line_step, line_step, step, lanes, count)
}

/// Whether `dst` is `src` after one pass over `lines` lines of `count`
/// elements each: as many full groups of `LANES` lines as there are have been
/// blurred side by side, the lines that are left over one by one, and
/// whatever belongs to no line is as it was.
pub open spec fn pass_blurred<
    T,
    BS: StackBlurrable,
    B1: StackBlurrable,
    FS: Fn([&T; LANES]) -> BS,
    GS: Fn(BS) -> [T; LANES],
    F1: Fn(&T) -> B1,
    G1: Fn(B1) -> T,
    const LANES: usize,
>(
    src: Seq<T>,
    dst: Seq<T>,
    lines: nat,
    count: nat,
    line_step: int,
    step: int,
    radius: nat,
    to_blurrable_simd: FS,
    to_pixel_simd: GS,
    to_blurrable_single: F1,
    to_pixel_single: G1,
) -> bool {
    &&& dst.len() == src.len()
    &&& forall|g: int|
        0 <= g < lines / (LANES as nat) ==> lanes_blurred(
            #[trigger] group_lines(src, g, line_step, step, LANES as nat, count),
            group_lines(dst, g, line_step, step, LANES as nat, count),
            count,
            radius,
            to_blurrable_simd,
            to_pixel_simd,
        )
    &&& forall|l: int|
        (lines / (LANES as nat)) * LANES <= l < lines ==> line_blurred(
            #[trigger] pass_line(src, l, line_step, step, count),
            pass_line(dst, l, line_step, step, count),
            radius,
            to_blurrable_single,
            to_pixel_single,
        )
    &&& forall|i: int|
        0 <= i < src.len() && !on_lanes(i, 0, line_step, step, lines, count) ==> #[trigger] dst[i]
            == src[i]
}

/// Whether `dst` is a blur of the frame in `src` with `LANES` lines side by
/// side: first a pass over the rows, then a pass over the columns of what the
/// rows have become.
pub open spec fn simd_frame_blurred<
    T,
    BS: StackBlurrable,
    B1: StackBlurrable,
    FS: Fn([&T; LANES]) -> BS,
    GS: Fn(BS) -> [T; LANES],
    F1: Fn(&T) -> B1,
    G1: Fn(B1) -> T,
    const LANES: usize,
>(
    src: Seq<T>,
    dst: Seq<T>,
    width: nat,
    height: nat,
    stride: nat,
    radius: nat,
    to_blurrable_simd: FS,
    to_pixel_simd: GS,
    to_blurrable_single: F1,
    to_pixel_single: G1,
) -> bool {
    exists|mid: Seq<T>| #[trigger]
        pass_blurred(
            src,
            mid,
            height,
            width,
            stride as int,
            1,
            radius,
            to_blurrable_simd,
            to_pixel_simd,
            to_blurrable_single,
            to_pixel_single,
        ) && pass_blurred(
            mid,
            dst,
            width,
            height,
            1,
            stride as int,
            radius,
            to_blurrable_simd,
            to_pixel_simd,
            to_blurrable_single,
            to_pixel_single,
        )
}

/// Lane `j` of the group that starts at line `first` is line `first + j` of
/// the pass.
pub proof fn lemma_group_position(line_step: int, step: int, first: int, j: int, k: int)
    ensures
        lane_position(first * line_step, line_step, step, j, k) == lane_position(
            0,
            line_step,
            step,
            first + j,
            k,
        ),
{
    assert((first + j) * line_step == first * line_step + j * line_step) by (nonlinear_arith);
}

/// A group of lines of a pass whose lines lie apart: its lanes lie apart too.
pub proof fn lemma_group_apart(
    len: nat,
    line_step: int,
    step: int,
    lines: nat,
    count: nat,
    first: int,
    lanes: nat,
)
    requires
        lanes_apart(len, 0, line_step, step, lines, count),
        0 <= first,
        first + lanes <= lines,
    ensures
        lanes_apart(len, first * line_step, line_step, step, lanes, count),
{
    assert forall|j: int, k: int| 0 <= j < lanes && 0 <= k < count implies 0
        <= #[trigger] lane_position(first * line_step, line_step, step, j, k) < len by {
        lemma_group_position(line_step, step, first, j, k);
        assert(0 <= lane_position(0, line_step, step, first + j, k) < len);
    }
    assert forall|j: int, k: int, j2: int, k2: int|
        0 <= j < lanes && 0 <= k < count && 0 <= j2 < lanes && 0 <= k2 < count && (j != j2 || k
            != k2) implies #[trigger] lane_position(first * line_step, line_step, step, j, k)
        != #[trigger] lane_position(first * line_step, line_step, step, j2, k2) by {
        lemma_group_position(line_step, step, first, j, k);
        lemma_group_position(line_step, step, first, j2, k2);
        assert(lane_position(0, line_step, step, first + j, k) != lane_position(
            0,
            line_step,
            step,
            first + j2,
            k2,
        ));
    }
}

/// A position that belongs to a group of lines belongs to one of the lines of
/// the pass from `first` up to `first + lanes`.
pub proof fn lemma_on_group(
    i: int,
    line_step: int,
    step: int,
    count: nat,
    first: int,
    lanes: nat,
) -> (at: (int, int))
    requires
        on_lanes(i, first * line_step, line_step, step, lanes, count),
    ensures
        first <= at.0 < first + lanes,
        0 <= at.1 < count,
        i == lane_position(0, line_step, step, at.0, at.1),
{
    let (j, k) = choose|j: int, k: int|
        0 <= j < lanes && 0 <= k < count && i == #[trigger] lane_position(
            first * line_step,
            line_step,
            step,
            j,
            k,
        );
    lemma_group_position(line_step, step, first, j, k);
    (first + j, k)
}

/// A position that belongs to line `l` of a pass is one of its elements.
pub proof fn lemma_on_pass_line(i: int, line_step: int, step: int, count: nat, l: int) -> (k: int)
    requires
        on_line(i, l * line_step, step, count),
    ensures
        0 <= k < count,
        i == lane_position(0, line_step, step, l, k),
{
    choose|k: int| 0 <= k < count && i == #[trigger] (k * step) + l * line_step
}

/// Whether `after` holds what `before` holds at every position of every line
/// of the pass but the lines `lo..hi`.
pub open spec fn lines_kept<T>(
    before: Seq<T>,
    after: Seq<T>,
    line_step: int,
    step: int,
    lines: nat,
    count: nat,
    lo: int,
    hi: int,
) -> bool {
    forall|l: int, k: int|
        0 <= l < lines && !(lo <= l < hi) && 0 <= k < count ==> after[#[trigger] lane_position(
            0,
            line_step,
            step,
            l,
            k,
        )] == before[lane_position(0, line_step, step, l, k)]
}

/// What is changed only on a group of lines is kept on every other line of
/// the pass, and where no line is.
pub proof fn lemma_kept_around_group<T>(
    before: Seq<T>,
    after: Seq<T>,
    line_step: int,
    step: int,
    lines: nat,
    count: nat,
    first: int,
    lanes: nat,
)
    requires
        after.len() == before.len(),
        lanes_apart(before.len(), 0, line_step, step, lines, count),
        0 <= first,
        first + lanes <= lines,
        forall|i: int|
            0 <= i < before.len() && !on_lanes(i, first * line_step, line_step, step, lanes, count)
                ==> after[i] == before[i],
    ensures
        lines_kept(before, after, line_step, step, lines, count, first, first + lanes),
        forall|i: int|
            0 <= i < before.len() && !on_lanes(i, 0, line_step, step, lines, count)
                ==> after[i] == before[i],
{
    assert forall|l: int, k: int|
        0 <= l < lines && !(first <= l < first + lanes) && 0 <= k < count implies after[
        #[trigger] lane_position(0, line_step, step, l, k)
    ] == before[lane_position(0, line_step, step, l, k)] by {
        let i = lane_position(0, line_step, step, l, k);
        if on_lanes(i, first * line_step, line_step, step, lanes, count) {
            let at = lemma_on_group(i, line_step, step, count, first, lanes);
            assert(lane_position(0, line_step, step, at.0, at.1) != lane_position(
                0,
                line_step,
                step,
                l,
                k,
            ));
        }
    }
    assert forall|i: int|
        0 <= i < before.len() && !on_lanes(i, 0, line_step, step, lines, count) implies after[i]
        == before[i] by {
        if on_lanes(i, first * line_step, line_step, step, lanes, count) {
            let at = lemma_on_group(i, line_step, step, count, first, lanes);
            assert(on_lanes(i, 0, line_step, step, lines, count));
        }
    }
}

/// What is changed only on one line is kept on every other line of the pass,
/// and where no line is.
pub proof fn lemma_kept_around_line<T>(
    before: Seq<T>,
    after: Seq<T>,
    line_step: int,
    step: int,
    lines: nat,
    count: nat,
    this: int,
)
    requires
        after.len() == before.len(),
        lanes_apart(before.len(), 0, line_step, step, lines, count),
        0 <= this < lines,
        forall|i: int|
            0 <= i < before.len() && !on_line(i, this * line_step, step, count) ==> after[i]
                == before[i],
    ensures
        lines_kept(before, after, line_step, step, lines, count, this, this + 1),
        forall|i: int|
            0 <= i < before.len() && !on_lanes(i, 0, line_step, step, lines, count)
                ==> after[i] == before[i],
{
    assert forall|l: int, k: int|
        0 <= l < lines && !(this <= l < this + 1) && 0 <= k < count implies after[
        #[trigger] lane_position(0, line_step, step, l, k)
    ] == before[lane_position(0, line_step, step, l, k)] by {
        let i = lane_position(0, line_step, step, l, k);
        if on_line(i, this * line_step, step, count) {
            let k2 = lemma_on_pass_line(i, line_step, step, count, this);
            assert(lane_position(0, line_step, step, this, k2) != lane_position(
                0,
                line_step,
                step,
                l,
                k,
            ));
        }
    }
    assert forall|i: int|
        0 <= i < before.len() && !on_lanes(i, 0, line_step, step, lines, count) implies after[i]
        == before[i] by {
        if on_line(i, this * line_step, step, count) {
            let k2 = lemma_on_pass_line(i, line_step, step, count, this);
            assert(on_lanes(i, 0, line_step, step, lines, count));
        }
    }
}

/// A group whose lines are kept holds the same lines as before.
pub proof fn lemma_group_kept<T>(
    before: Seq<T>,
    after: Seq<T>,
    line_step: int,
    step: int,
    lines: nat,
    count: nat,
    lo: int,
    hi: int,
    g: int,
    lanes: nat,
)
    requires
        lines_kept(before, after, line_step, step, lines, count, lo, hi),
        0 <= g,
        g * lanes + lanes <= lines,
        g * lanes + lanes <= lo || hi <= g * lanes,
    ensures
        group_lines(after, g, line_step, step, lanes, count) == group_lines(
            before,
            g,
            line_step,
            step,
            lanes,
            count,
        ),
{
    let one = group_lines(after, g, line_step, step, lanes, count);
    let other = group_lines(before, g, line_step, step, lanes, count);
    assert(0 <= g * lanes && g * lanes * line_step == (g * lanes) * line_step)
        by (nonlinear_arith)
        requires
            0 <= g,
    ;
    assert forall|j: int| 0 <= j < lanes implies #[trigger] one[j] =~= other[j] by {
        assert forall|k: int| 0 <= k < count implies one[j][k] == other[j][k] by {
            lemma_group_position(line_step, step, g * lanes, j, k);
            assert(after[lane_position(0, line_step, step, g * lanes + j, k)]
                == before[lane_position(0, line_step, step, g * lanes + j, k)]);
        }
    }
    assert(one =~= other);
}

/// A line that is kept holds the same elements as before.
pub proof fn lemma_line_kept<T>(
    before: Seq<T>,
    after: Seq<T>,
    line_step: int,
    step: int,
    lines: nat,
    count: nat,
    lo: int,
    hi: int,
    l: int,
)
    requires
        lines_kept(before, after, line_step, step, lines, count, lo, hi),
        0 <= l < lines,
        !(lo <= l < hi),
    ensures
        pass_line(after, l, line_step, step, count) == pass_line(
            before,
            l,
            line_step,
            step,
            count,
        ),
{
    let one = pass_line(after, l, line_step, step, count);
    let other = pass_line(before, l, line_step, step, count);
    assert forall|k: int| 0 <= k < count implies one[k] == other[k] by {
        assert(after[lane_position(0, line_step, step, l, k)] == before[lane_position(
            0,
            line_step,
            step,
            l,
            k,
        )]);
    }
    assert(one =~= other);
}

/// Runs one pass over the lines of a buffer: full groups of `LANES` lines go
/// through the lane-packed engine side by side, and the lines that are left
/// over go through the scalar engine one by one.
pub fn blur_pass<
    T: Copy,
    BS: StackBlurrable,
    B1: StackBlurrable,
    FS: Fn([&T; LANES]) -> BS,
    GS: Fn(BS) -> [T; LANES],
    F1: Fn(&T) -> B1,
    G1: Fn(B1) -> T,
    const LANES: usize,
>(
    buffer: &mut [T],
    lines: usize,
    count: usize,
    line_step: usize,
    step: usize,
    radius: usize,
    to_blurrable_simd: &FS,
    to_pixel_simd: &GS,
    to_blurrable_single: &F1,
    to_pixel_single: &G1,
    values_simd: &mut Vec<BS>,
    values_single: &mut Vec<B1>,
    ops_simd: VecDeque<BS>,
    ops_single: VecDeque<B1>,
) -> (scratch: (VecDeque<BS>, VecDeque<B1>))
    requires
        LANES >= 1,
        lines > 0,
        count > 0,
        step >= 1,
        lanes_apart(
            old(buffer)@.len(),
            0,
            line_step as int,
            step as int,
            lines as nat,
            count as nat,
        ),
        radius_fits::<BS>(radius),
        radius_fits::<B1>(radius),
        forall|pixels: [&T; LANES]| #[trigger] to_blurrable_simd.requires((pixels,)),
        forall|value: BS| #[trigger] to_pixel_simd.requires((value,)),
        forall|pixel: &T| #[trigger] to_blurrable_single.requires((pixel,)),
        forall|value: B1| #[trigger] to_pixel_single.requires((value,)),
    ensures
        pass_blurred(
            old(buffer)@,
            final(buffer)@,
            lines as nat,
            count as nat,
            line_step as int,
            step as int,
            radius as nat,
            *to_blurrable_simd,
            *to_pixel_simd,
            *to_blurrable_single,
            *to_pixel_single,
        ),
{
    let ghost initial = buffer@;
    let ghost (ls, st, n, c, r) = (
        line_step as int,
        step as int,
        lines as nat,
        count as nat,
        radius as nat,
    );
    let ghost lanes = LANES as nat;
    let len = buffer.len();
    let mut ops_simd = ops_simd;
    let mut ops_single = ops_single;
    let mut y: usize = 0;
    let ghost mut g: int = 0;
    while lines - y >= LANES
        invariant
            LANES >= 1,
            lanes == LANES as nat,
            y <= lines,
            0 <= g,
            y == g * LANES,
            count > 0,
            initial.len() == len,
            (ls, st, n, c, r) == (
                line_step as int,
                step as int,
                lines as nat,
                count as nat,
                radius as nat,
            ),
            lanes_apart(initial.len(), 0, ls, st, n, c),
            radius_fits::<BS>(radius),
            forall|pixels: [&T; LANES]| #[trigger] to_blurrable_simd.requires((pixels,)),
            forall|value: BS| #[trigger] to_pixel_simd.requires((value,)),
            buffer@.len() == initial.len(),
            forall|done: int|
                0 <= done < g ==> lanes_blurred(
                    #[trigger] group_lines(initial, done, ls, st, lanes, c),
                    group_lines(buffer@, done, ls, st, lanes, c),
                    c,
                    r,
                    *to_blurrable_simd,
                    *to_pixel_simd,
                ),
            lines_kept(initial, buffer@, ls, st, n, c, 0, y as int),
            forall|i: int|
                0 <= i < initial.len() && !on_lanes(i, 0, ls, st, n, c) ==> #[trigger] buffer@[i]
                    == initial[i],
        decreases lines - y,
    {
        let ghost before = buffer@;
        proof {
            lemma_lane_offsets(initial.len(), 0, ls, st, n, c, y as int, 0);
            lemma_group_apart(initial.len(), ls, st, n, c, y as int, lanes);
        }
        ops_simd =
        blur_lanes(
            buffer,
            y * line_step,
            line_step,
            step,
            count,
            radius,
            to_blurrable_simd,
            to_pixel_simd,
            values_simd,
            ops_simd,
        );
        proof {
            let after = buffer@;
            let first = y as int;
            assert(first * ls == g * lanes * ls) by (nonlinear_arith)
                requires
                    first == g * lanes,
            ;
            lemma_kept_around_group(before, after, ls, st, n, c, first, lanes);
            lemma_group_kept(initial, before, ls, st, n, c, 0, first, g, lanes);
            assert forall|done: int| 0 <= done < g implies lanes_blurred(
                #[trigger] group_lines(initial, done, ls, st, lanes, c),
                group_lines(after, done, ls, st, lanes, c),
                c,
                r,
                *to_blurrable_simd,
                *to_pixel_simd,
            ) by {
                assert(done * lanes + lanes <= first) by (nonlinear_arith)
                    requires
                        0 <= done < g,
                        first == g * lanes,
                ;
                lemma_group_kept(
                    before,
                    after,
                    ls,
                    st,
                    n,
                    c,
                    first,
                    first + lanes,
                    done,
                    lanes,
                );
            }
            g = g + 1;
            assert((g - 1) * LANES + LANES == g * LANES) by (nonlinear_arith);
        }
        y += LANES;
    }
    proof {
        vstd::arithmetic::div_mod::lemma_fundamental_div_mod_converse(
            lines as int,
            LANES as int,
            g,
            lines - y,
        );
    }
    let ghost grouped = y as int;
    let ghost groups = g;
    while y < lines
        invariant
            LANES >= 1,
            lanes == LANES as nat,
            grouped <= y <= lines,
            0 <= groups,
            grouped == groups * LANES,
            count > 0,
            step >= 1,
            initial.len() == len,
            (ls, st, n, c, r) == (
                line_step as int,
                step as int,
                lines as nat,
                count as nat,
                radius as nat,
            ),
            lanes_apart(initial.len(), 0, ls, st, n, c),
            radius_fits::<B1>(radius),
            forall|pixel: &T| #[trigger] to_blurrable_single.requires((pixel,)),
            forall|value: B1| #[trigger] to_pixel_single.requires((value,)),
            buffer@.len() == initial.len(),
            forall|done: int|
                0 <= done < groups ==> lanes_blurred(
                    #[trigger] group_lines(initial, done, ls, st, lanes, c),
                    group_lines(buffer@, done, ls, st, lanes, c),
                    c,
                    r,
                    *to_blurrable_simd,
                    *to_pixel_simd,
                ),
            forall|done: int|
                grouped <= done < y ==> line_blurred(
                    #[trigger] pass_line(initial, done, ls, st, c),
                    pass_line(buffer@, done, ls, st, c),
                    r,
                    *to_blurrable_single,
                    *to_pixel_single,
                ),
            lines_kept(initial, buffer@, ls, st, n, c, 0, y as int),
            forall|i: int|
                0 <= i < initial.len() && !on_lanes(i, 0, ls, st, n, c) ==> #[trigger] buffer@[i]
                    == initial[i],
        decreases lines - y,
    {
        let ghost before = buffer@;
        proof {
            lemma_lane_offsets(initial.len(), 0, ls, st, n, c, y as int, 0);
            lemma_lane_offsets(initial.len(), 0, ls, st, n, c, y as int, c - 1);
        }
        ops_single =
        blur_line(
            buffer,
            y * line_step,
            step,
            count,
            radius,
            to_blurrable_single,
            to_pixel_single,
            values_single,
            ops_single,
        );
        proof {
            let after = buffer@;
            let this = y as int;
            lemma_kept_around_line(before, after, ls, st, n, c, this);
            lemma_line_kept(initial, before, ls, st, n, c, 0, this, this);
            assert forall|done: int| grouped <= done < y implies line_blurred(
                #[trigger] pass_line(initial, done, ls, st, c),
                pass_line(after, done, ls, st, c),
                r,
                *to_blurrable_single,
                *to_pixel_single,
            ) by {
                lemma_line_kept(before, after, ls, st, n, c, this, this + 1, done);
            }
            assert forall|done: int| 0 <= done < groups implies lanes_blurred(
                #[trigger] group_lines(initial, done, ls, st, lanes, c),
                group_lines(after, done, ls, st, lanes, c),
                c,
                r,
                *to_blurrable_simd,
                *to_pixel_simd,
            ) by {
                assert(done * lanes + lanes <= grouped) by (nonlinear_arith)
                    requires
                        0 <= done < groups,
                        grouped == groups * lanes,
                ;
                lemma_group_kept(before, after, ls, st, n, c, this, this + 1, done, lanes);
            }
        }
        y += 1;
    }
    (ops_simd, ops_single)
}

/// The rows of a frame lie apart, and so do its columns.
pub proof fn lemma_frame_lines_apart(len: nat, width: nat, height: nat, stride: nat)
    requires
        frame_fits(len, width, height, stride),
    ensures
        lanes_apart(len, 0, stride as int, 1, height, width),
        lanes_apart(len, 0, 1, stride as int, width, height),
{
    let s = stride as int;
    assert forall|l: int, k: int| 0 <= l < height && 0 <= k < width implies 0
        <= #[trigger] lane_position(0, s, 1, l, k) < len by {
        lemma_pixel_position(k, l, len, width, height, stride);
    }
    assert forall|l: int, k: int, l2: int, k2: int|
        0 <= l < height && 0 <= k < width && 0 <= l2 < height && 0 <= k2 < width && (l != l2 || k
            != k2) implies #[trigger] lane_position(0, s, 1, l, k) != #[trigger] lane_position(
        0,
        s,
        1,
        l2,
        k2,
    ) by {
        lemma_pixel_position(k, l, len, width, height, stride);
        lemma_pixel_position(k2, l2, len, width, height, stride);
    }
    assert forall|l: int, k: int| 0 <= l < width && 0 <= k < height implies 0
        <= #[trigger] lane_position(0, 1, s, l, k) < len by {
        lemma_pixel_position(l, k, len, width, height, stride);
    }
    assert forall|l: int, k: int, l2: int, k2: int|
        0 <= l < width && 0 <= k < height && 0 <= l2 < width && 0 <= k2 < height && (l != l2 || k
            != k2) implies #[trigger] lane_position(0, 1, s, l, k) != #[trigger] lane_position(
        0,
        1,
        s,
        l2,
        k2,
    ) by {
        lemma_pixel_position(l, k, len, width, height, stride);
        lemma_pixel_position(l2, k2, len, width, height, stride);
    }
}

/// A pass over no lines, or over lines without elements, changes nothing.
pub proof fn lemma_empty_pass_blurred<
    T,
    BS: StackBlurrable,
    B1: StackBlurrable,
    FS: Fn([&T; LANES]) -> BS,
    GS: Fn(BS) -> [T; LANES],
    F1: Fn(&T) -> B1,
    G1: Fn(B1) -> T,
    const LANES: usize,
>(
    src: Seq<T>,
    lines: nat,
    count: nat,
    line_step: int,
    step: int,
    radius: nat,
    to_blurrable_simd: FS,
    to_pixel_simd: GS,
    to_blurrable_single: F1,
    to_pixel_single: G1,
)
    requires
        LANES >= 1,
        lines == 0 || count == 0,
    ensures
        pass_blurred(
            src,
            src,
            lines,
            count,
            line_step,
            step,
            radius,
            to_blurrable_simd,
            to_pixel_simd,
            to_blurrable_single,
            to_pixel_single,
        ),
{
    let lanes = LANES as nat;
    assert forall|g: int| 0 <= g < lines / lanes implies lanes_blurred(
        #[trigger] group_lines(src, g, line_step, step, lanes, count),
        group_lines(src, g, line_step, step, lanes, count),
        count,
        radius,
        to_blurrable_simd,
        to_pixel_simd,
    ) by {
        assert(count == 0);
        let lines_of = group_lines(src, g, line_step, step, lanes, count);
        assert(lanes_witness(
            lines_of,
            lines_of,
            count,
            radius,
            to_blurrable_simd,
            to_pixel_simd,
            Seq::<BS>::empty(),
            Seq::<[&T; LANES]>::empty(),
            Seq::<[T; LANES]>::empty(),
        ));
    }
    assert forall|l: int| (lines / lanes) * LANES <= l < lines implies line_blurred(
        #[trigger] pass_line(src, l, line_step, step, count),
        pass_line(src, l, line_step, step, count),
        radius,
        to_blurrable_single,
        to_pixel_single,
    ) by {
        lemma_empty_line_blurred(
            pass_line(src, l, line_step, step, count),
            pass_line(src, l, line_step, step, count),
            radius,
            to_blurrable_single,
            to_pixel_single,
        );
    }
}

/// Blurs a frame in place with `LANES` lines side by side, assuming one
/// element per pixel: first a pass over the rows, then a pass over the columns
/// of the result.
///
/// In each pass, full groups of `LANES` neighbouring lines are blurred
/// together by the lane-packed closures, and the lines that are left over are
/// blurred one by one by the scalar closures. Whatever the buffer holds
/// outside the frame is left as it was.
pub fn simd_blur<
    T: Copy,
    BS: StackBlurrable,
    B1: StackBlurrable,
    FS: Fn([&T; LANES]) -> BS,
    GS: Fn(BS) -> [T; LANES],
    F1: Fn(&T) -> B1,
    G1: Fn(B1) -> T,
    const LANES: usize,
>(
    buffer: &mut [T],
    width: usize,
    height: usize,
    stride: usize,
    radius: usize,
    to_blurrable_simd: FS,
    to_pixel_simd: GS,
    to_blurrable_single: F1,
    to_pixel_single: G1,
)
    requires
        LANES >= 1,
        frame_fits(old(buffer)@.len(), width as nat, height as nat, stride as nat),
        radius_fits::<BS>(radius),
        radius_fits::<B1>(radius),
        forall|pixels: [&T; LANES]| #[trigger] to_blurrable_simd.requires((pixels,)),
        forall|value: BS| #[trigger] to_pixel_simd.requires((value,)),
        forall|pixel: &T| #[trigger] to_blurrable_single.requires((pixel,)),
        forall|value: B1| #[trigger] to_pixel_single.requires((value,)),
    ensures
        simd_frame_blurred(
            old(buffer)@,
            final(buffer)@,
            width as nat,
            height as nat,
            stride as nat,
            radius as nat,
            to_blurrable_simd,
            to_pixel_simd,
            to_blurrable_single,
            to_pixel_single,
        ),
{
    let ghost initial = buffer@;
    if width == 0 || height == 0 {
        proof {
            lemma_empty_pass_blurred(
                initial,
                height as nat,
                width as nat,
                stride as int,
                1,
                radius as nat,
                to_blurrable_simd,
                to_pixel_simd,
                to_blurrable_single,
                to_pixel_single,
            );
            lemma_empty_pass_blurred(
                initial,
                width as nat,
                height as nat,
                1,
                stride as int,
                radius as nat,
                to_blurrable_simd,
                to_pixel_simd,
                to_blurrable_single,
                to_pixel_single,
            );
        }
        return ;
    }
    proof {
        lemma_frame_lines_apart(initial.len(), width as nat, height as nat, stride as nat);
    }
    let mut values_simd: Vec<BS> = Vec::new();
    let mut values_single: Vec<B1> = Vec::new();
    let (ops_simd, ops_single) = blur_pass(
        buffer,
        height,
        width,
        stride,
        1,
        radius,
        &to_blurrable_simd,
        &to_pixel_simd,
        &to_blurrable_single,
        &to_pixel_single,
        &mut values_simd,
        &mut values_single,
        VecDeque::new(),
        VecDeque::new(),
    );
    let ghost mid = buffer@;
    let _ = blur_pass(
        buffer,
        width,
        height,
        1,
        stride,
        radius,
        &to_blurrable_simd,
        &to_pixel_simd,
        &to_blurrable_single,
        &to_pixel_single,
        &mut values_simd,
        &mut values_single,
        ops_simd,
        ops_single,
    );
    proof {
        assert(pass_blurred(
            initial,
            mid,
            height as nat,
            width as nat,
            stride as int,
            1,
            radius as nat,
            to_blurrable_simd,
            to_pixel_simd,
            to_blurrable_single,
            to_pixel_single,
        ));
    }
}

} // verus!
