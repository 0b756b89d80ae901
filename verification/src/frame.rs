//! Lines of a strided pixel buffer, and the blur of one line in place.
//!
//! A frame of `width` x `height` pixels lies in a buffer whose rows start
//! `stride` elements apart: pixel `(x, y)` is the element `y * stride + x`.
//! A line is a row or a column of the frame: `count` elements of the buffer,
//! the first at `start`, each `step` elements after the one before.

use crate::iter::{radius_fits, StackBlur};
use crate::traits::StackBlurrable;
use crate::window::blurred_at;
use std::collections::VecDeque;
use vstd::prelude::*;

verus! {

/// Whether a buffer of `len` elements holds every pixel of the frame.
pub open spec fn frame_fits(len: nat, width: nat, height: nat, stride: nat) -> bool {
    &&& width <= stride
    &&& (width == 0 || height == 0 || (height - 1) * stride + width <= len)
}

/// Tests whether a buffer of `len` elements holds every pixel of the frame.
pub fn fits_frame(len: usize, width: usize, height: usize, stride: usize) -> (fits: bool)
    ensures
        fits == frame_fits(len as nat, width as nat, height as nat, stride as nat),
{
    if width > stride {
        return false;
    }
    if width == 0 || height == 0 {
        return true;
    }
    match (height - 1).checked_mul(stride) {
        Some(rows) => match rows.checked_add(width) {
            Some(needed) => needed <= len,
            None => false,
        },
        None => false,
    }
}

/// The elements of the line that starts at `start` and takes every `step`-th
/// element from there on, `count` in all.
pub open spec fn line<T>(buffer: Seq<T>, start: int, step: int, count: nat) -> Seq<T> {
    Seq::new(count, |k: int| buffer[start + k * step])
}

/// Row `y` of the frame.
pub open spec fn row<T>(buffer: Seq<T>, y: int, width: nat, stride: nat) -> Seq<T> {
    line(buffer, y * stride, 1, width)
}

/// Column `x` of the frame.
pub open spec fn column<T>(buffer: Seq<T>, x: int, height: nat, stride: nat) -> Seq<T> {
    line(buffer, x, stride as int, height)
}

/// Whether the buffer position `i` holds a pixel of the frame, and not
/// padding between two rows or after the last.
pub open spec fn in_frame(i: int, width: nat, height: nat, stride: nat) -> bool {
    stride > 0 && 0 <= i && i % (stride as int) < width && i / (stride as int) < height
}

/// Whether the buffer position `i` belongs to the line.
pub open spec fn on_line(i: int, start: int, step: int, count: nat) -> bool {
    exists|k: int| 0 <= k < count && i == #[trigger] (k * step) + start
}

/// Whether `values` can be what `convert` made of the pixels of `pixels`, one
/// for one.
pub open spec fn converted<T, B, F: Fn(&T) -> B>(
    convert: F,
    pixels: Seq<T>,
    values: Seq<B>,
) -> bool {
    &&& values.len() == pixels.len()
    &&& forall|k: int|
        0 <= k < pixels.len() ==> convert.ensures((&pixels[k],), #[trigger] values[k])
}

/// Whether `pixels` can be what `convert` made of the blurred `values`, one
/// for one.
pub open spec fn restored<T, B: StackBlurrable, G: Fn(B) -> T>(
    convert: G,
    values: Seq<B>,
    radius: nat,
    pixels: Seq<T>,
) -> bool {
    &&& pixels.len() == values.len()
    &&& forall|k: int|
        0 <= k < values.len() ==> convert.ensures(
            (blurred_at(values, radius, k),),
            #[trigger] pixels[k],
        )
}

/// Whether the line `dst` is a blur of the line `src`: there are values that
/// `to_blurrable` can have made of the pixels of `src`, and `to_pixel` can
/// have made the pixels of `dst` of their blur.
pub open spec fn line_blurred<T, B: StackBlurrable, F: Fn(&T) -> B, G: Fn(B) -> T>(
    src: Seq<T>,
    dst: Seq<T>,
    radius: nat,
    to_blurrable: F,
    to_pixel: G,
) -> bool {
    exists|values: Seq<B>| #[trigger]
        converted(to_blurrable, src, values) && restored(to_pixel, values, radius, dst)
}

/// Whether `dst` is `src` with every row of the frame blurred, and everything
/// outside the frame left as it was.
pub open spec fn rows_blurred<T, B: StackBlurrable, F: Fn(&T) -> B, G: Fn(B) -> T>(
    src: Seq<T>,
    dst: Seq<T>,
    width: nat,
    height: nat,
    stride: nat,
    radius: nat,
    to_blurrable: F,
    to_pixel: G,
) -> bool {
    &&& dst.len() == src.len()
    &&& forall|y: int|
        0 <= y < height ==> line_blurred(
            #[trigger] row(src, y, width, stride),
            row(dst, y, width, stride),
            radius,
            to_blurrable,
            to_pixel,
        )
    &&& forall|i: int|
        0 <= i < src.len() && !in_frame(i, width, height, stride) ==> #[trigger] dst[i] == src[i]
}

/// Whether `dst` is `src` with every column of the frame blurred, and
/// everything outside the frame left as it was.
pub open spec fn columns_blurred<T, B: StackBlurrable, F: Fn(&T) -> B, G: Fn(B) -> T>(
    src: Seq<T>,
    dst: Seq<T>,
    width: nat,
    height: nat,
    stride: nat,
    radius: nat,
    to_blurrable: F,
    to_pixel: G,
) -> bool {
    &&& dst.len() == src.len()
    &&& forall|x: int|
        0 <= x < width ==> line_blurred(
            #[trigger] column(src, x, height, stride),
            column(dst, x, height, stride),
            radius,
            to_blurrable,
            to_pixel,
        )
    &&& forall|i: int|
        0 <= i < src.len() && !in_frame(i, width, height, stride) ==> #[trigger] dst[i] == src[i]
}

/// Whether `dst` is a blur of the frame in `src`: first every row is blurred,
/// and then every column of what the rows have become.
pub open spec fn frame_blurred<T, B: StackBlurrable, F: Fn(&T) -> B, G: Fn(B) -> T>(
    src: Seq<T>,
    dst: Seq<T>,
    width: nat,
    height: nat,
    stride: nat,
    radius: nat,
    to_blurrable: F,
    to_pixel: G,
) -> bool {
    exists|mid: Seq<T>| #[trigger]
        rows_blurred(src, mid, width, height, stride, radius, to_blurrable, to_pixel)
            && columns_blurred(mid, dst, width, height, stride, radius, to_blurrable, to_pixel)
}

/// Where pixel `(x, y)` lies: its position is in the buffer, and dividing the
/// position by the stride gives `y` and leaves `x`.
pub proof fn lemma_pixel_position(
    x: int,
    y: int,
    len: nat,
    width: nat,
    height: nat,
    stride: nat,
)
    requires
        frame_fits(len, width, height, stride),
        0 <= x < width,
        0 <= y < height,
    ensures
        0 <= y * stride,
        0 <= y * stride + x < len,
        (y * stride + x) / (stride as int) == y,
        (y * stride + x) % (stride as int) == x,
        in_frame(y * stride + x, width, height, stride),
{
    assert(0 <= y * stride <= (height - 1) * stride) by (nonlinear_arith)
        requires
            0 <= y <= height - 1,
            stride >= 0,
    ;
    vstd::arithmetic::div_mod::lemma_fundamental_div_mod_converse(
        y * stride + x,
        stride as int,
        y,
        x,
    );
}

/// A position on row `y` is a pixel of that row.
pub proof fn lemma_on_row(i: int, y: int, width: nat, stride: nat)
    requires
        0 < width <= stride,
        0 <= y,
        on_line(i, y * stride, 1, width),
    ensures
        i / (stride as int) == y,
        i % (stride as int) < width,
{
    let k = choose|k: int| 0 <= k < width && i == #[trigger] (k * 1) + y * stride;
    vstd::arithmetic::div_mod::lemma_fundamental_div_mod_converse(i, stride as int, y, k);
}

/// A position on column `x` is a pixel of that column.
pub proof fn lemma_on_column(i: int, x: int, width: nat, height: nat, stride: nat)
    requires
        0 <= x < width <= stride,
        on_line(i, x, stride as int, height),
    ensures
        i / (stride as int) < height,
        i % (stride as int) == x,
{
    let k = choose|k: int| 0 <= k < height && i == #[trigger] (k * stride) + x;
    vstd::arithmetic::div_mod::lemma_fundamental_div_mod_converse(i, stride as int, k, x);
}

/// An empty line is a blur of itself.
pub proof fn lemma_empty_line_blurred<T, B: StackBlurrable, F: Fn(&T) -> B, G: Fn(B) -> T>(
    src: Seq<T>,
    dst: Seq<T>,
    radius: nat,
    to_blurrable: F,
    to_pixel: G,
)
    requires
        src.len() == 0,
        dst.len() == 0,
    ensures
        line_blurred(src, dst, radius, to_blurrable, to_pixel),
{
    let values = Seq::<B>::empty();
    assert(converted(to_blurrable, src, values) && restored(to_pixel, values, radius, dst));
}

/// The positions of a line lie `step` apart: position `k` is in the buffer
/// where the line is, and no two positions are the same.
pub proof fn lemma_line_positions(start: int, step: int, count: nat, len: nat, j: int, k: int)
    requires
        step >= 1,
        start >= 0,
        count > 0,
        start + (count - 1) * step < len,
        0 <= j < count,
        0 <= k < count,
    ensures
        0 <= k * step,
        0 <= start + k * step < len,
        j != k ==> start + j * step != start + k * step,
        on_line(start + k * step, start, step, count),
{
    assert(0 <= k * step <= (count - 1) * step) by (nonlinear_arith)
        requires
            0 <= k <= count - 1,
            step >= 1,
    ;
    assert(j != k ==> j * step != k * step) by (nonlinear_arith)
        requires
            step >= 1,
    ;
    assert(start + k * step == (k * step) + start);
}

/// Blurs one line of the buffer in place. Every pixel of the line is turned
/// into a blurrable value by `to_blurrable`, the values are blurred with the
/// given radius, and `to_pixel` turns each blurred value into the pixel that
/// takes the place of the one it came from. `values` and `ops` are scratch
/// space: what they held is dropped, `values` is left with the values that
/// the pixels of the line were turned into, and `ops` is handed back.
pub fn blur_line<T, B: StackBlurrable, F: Fn(&T) -> B, G: Fn(B) -> T>(
    buffer: &mut [T],
    start: usize,
    step: usize,
    count: usize,
    radius: usize,
    to_blurrable: &F,
    to_pixel: &G,
    values: &mut Vec<B>,
    ops: VecDeque<B>,
) -> (scratch: VecDeque<B>)
    requires
        step >= 1,
        count > 0 ==> start + (count - 1) * step < old(buffer)@.len(),
        radius_fits::<B>(radius),
        forall|pixel: &T| #[trigger] to_blurrable.requires((pixel,)),
        forall|value: B| #[trigger] to_pixel.requires((value,)),
    ensures
        final(buffer)@.len() == old(buffer)@.len(),
        converted(
            *to_blurrable,
            line(old(buffer)@, start as int, step as int, count as nat),
            final(values)@,
        ),
        restored(
            *to_pixel,
            final(values)@,
            radius as nat,
            line(final(buffer)@, start as int, step as int, count as nat),
        ),
        line_blurred(
            line(old(buffer)@, start as int, step as int, count as nat),
            line(final(buffer)@, start as int, step as int, count as nat),
            radius as nat,
            *to_blurrable,
            *to_pixel,
        ),
        forall|i: int|
            0 <= i < old(buffer)@.len() && !on_line(i, start as int, step as int, count as nat)
                ==> final(buffer)@[i] == old(buffer)@[i],
        scratch@.len() == if count == 0 {
            0
        } else {
            2 * radius + 2
        },
{
    let ghost initial = buffer@;
    let ghost src = line(initial, start as int, step as int, count as nat);
    let len = buffer.len();
    values.clear();
    let mut k: usize = 0;
    while k < count
        invariant
            k <= count,
            step >= 1,
            initial.len() == len,
            count > 0 ==> start + (count - 1) * step < initial.len(),
            buffer@ == initial,
            src == line(initial, start as int, step as int, count as nat),
            values@.len() == k,
            forall|j: int| 0 <= j < k ==> to_blurrable.ensures((&src[j],), #[trigger] values@[j]),
            forall|pixel: &T| #[trigger] to_blurrable.requires((pixel,)),
        decreases count - k,
    {
        proof {
            lemma_line_positions(
                start as int,
                step as int,
                count as nat,
                initial.len(),
                k as int,
                k as int,
            );
        }
        let value = to_blurrable(&buffer[start + k * step]);
        values.push(value);
        k += 1;
    }
    let mut engine = StackBlur::new(values.as_slice(), radius, ops);
    let mut k: usize = 0;
    while k < count
        invariant
            k <= count,
            step >= 1,
            initial.len() == len,
            count > 0 ==> start + (count - 1) * step < initial.len(),
            buffer@.len() == initial.len(),
            values@.len() == count,
            engine.wf(),
            engine.input() == values@,
            engine.radius() == radius as nat,
            engine.position() == k as nat,
            forall|j: int|
                0 <= j < k ==> to_pixel.ensures(
                    (blurred_at(values@, radius as nat, j),),
                    #[trigger] line(buffer@, start as int, step as int, count as nat)[j],
                ),
            forall|i: int|
                0 <= i < initial.len() && !on_line(i, start as int, step as int, count as nat)
                    ==> buffer@[i] == initial[i],
            forall|value: B| #[trigger] to_pixel.requires((value,)),
        decreases count - k,
    {
        let ghost before = buffer@;
        proof {
            lemma_line_positions(
                start as int,
                step as int,
                count as nat,
                initial.len(),
                k as int,
                k as int,
            );
        }
        if let Some(value) = engine.next() {
            buffer[start + k * step] = to_pixel(value);
        }
        proof {
            assert forall|j: int| 0 <= j < k + 1 implies to_pixel.ensures(
                (blurred_at(values@, radius as nat, j),),
                #[trigger] line(buffer@, start as int, step as int, count as nat)[j],
            ) by {
                lemma_line_positions(
                    start as int,
                    step as int,
                    count as nat,
                    initial.len(),
                    j,
                    k as int,
                );
                if j < k {
                    lemma_line_positions(
                        start as int,
                        step as int,
                        count as nat,
                        initial.len(),
                        j,
                        j,
                    );
                    assert(line(buffer@, start as int, step as int, count as nat)[j] == line(
                        before,
                        start as int,
                        step as int,
                        count as nat,
                    )[j]);
                }
            }
        }
        k += 1;
    }
    proof {
        let dst = line(buffer@, start as int, step as int, count as nat);
        assert(converted(*to_blurrable, src, values@));
        assert(restored(*to_pixel, values@, radius as nat, dst));
    }
    engine.into_ops()
}

/// Blurs a frame in place, assuming one element per pixel: first every row,
/// then every column of the result.
///
/// The closures convert between the buffer's own pixel format and the
/// blurrable values that the engine works on. Whatever the buffer holds
/// outside the frame is left as it was.
pub fn blur<T, B: StackBlurrable, F: Fn(&T) -> B, G: Fn(B) -> T>(
    buffer: &mut [T],
    width: usize,
    height: usize,
    stride: usize,
    radius: usize,
    to_blurrable: F,
    to_pixel: G,
)
    requires
        frame_fits(old(buffer)@.len(), width as nat, height as nat, stride as nat),
        radius_fits::<B>(radius),
        forall|pixel: &T| #[trigger] to_blurrable.requires((pixel,)),
        forall|value: B| #[trigger] to_pixel.requires((value,)),
    ensures
        frame_blurred(
            old(buffer)@,
            final(buffer)@,
            width as nat,
            height as nat,
            stride as nat,
            radius as nat,
            to_blurrable,
            to_pixel,
        ),
{
    let ghost initial = buffer@;
    let ghost (w, h, s, r) = (width as nat, height as nat, stride as nat, radius as nat);
    let len = buffer.len();
    if width == 0 || height == 0 {
        proof {
            assert forall|y: int| 0 <= y < h implies line_blurred(
                #[trigger] row(initial, y, w, s),
                row(initial, y, w, s),
                r,
                to_blurrable,
                to_pixel,
            ) by {
                lemma_empty_line_blurred(
                    row(initial, y, w, s),
                    row(initial, y, w, s),
                    r,
                    to_blurrable,
                    to_pixel,
                );
            }
            assert forall|x: int| 0 <= x < w implies line_blurred(
                #[trigger] column(initial, x, h, s),
                column(initial, x, h, s),
                r,
                to_blurrable,
                to_pixel,
            ) by {
                lemma_empty_line_blurred(
                    column(initial, x, h, s),
                    column(initial, x, h, s),
                    r,
                    to_blurrable,
                    to_pixel,
                );
            }
            assert(rows_blurred(initial, initial, w, h, s, r, to_blurrable, to_pixel));
            assert(columns_blurred(initial, initial, w, h, s, r, to_blurrable, to_pixel));
        }
        return ;
    }
    let mut ops: VecDeque<B> = VecDeque::new();
    let mut values: Vec<B> = Vec::new();
    let mut y: usize = 0;
    while y < height
        invariant
            y <= height,
            0 < width,
            initial.len() == len,
            (w, h, s, r) == (width as nat, height as nat, stride as nat, radius as nat),
            frame_fits(initial.len(), w, h, s),
            radius_fits::<B>(radius),
            forall|pixel: &T| #[trigger] to_blurrable.requires((pixel,)),
            forall|value: B| #[trigger] to_pixel.requires((value,)),
            buffer@.len() == initial.len(),
            forall|done: int|
                0 <= done < y ==> line_blurred(
                    #[trigger] row(initial, done, w, s),
                    row(buffer@, done, w, s),
                    r,
                    to_blurrable,
                    to_pixel,
                ),
            forall|i: int|
                0 <= i < initial.len() && !(i / (s as int) < y && i % (s as int) < w)
                    ==> #[trigger] buffer@[i] == initial[i],
        decreases height - y,
    {
        let ghost before = buffer@;
        proof {
            lemma_pixel_position(0, y as int, initial.len(), w, h, s);
            lemma_pixel_position(w - 1, y as int, initial.len(), w, h, s);
        }
        ops = blur_line(
            buffer,
            y * stride,
            1,
            width,
            radius,
            &to_blurrable,
            &to_pixel,
            &mut values,
            ops,
        );
        proof {
            let after = buffer@;
            assert forall|i: int|
                0 <= i < initial.len() && !(i / (s as int) < y + 1 && i % (s as int) < w)
                implies #[trigger] after[i] == initial[i] by {
                if on_line(i, y * stride, 1, w) {
                    lemma_on_row(i, y as int, w, s);
                }
            }
            assert(row(initial, y as int, w, s) =~= row(before, y as int, w, s)) by {
                assert forall|k: int| 0 <= k < w implies row(initial, y as int, w, s)[k] == row(
                    before,
                    y as int,
                    w,
                    s,
                )[k] by {
                    lemma_pixel_position(k, y as int, initial.len(), w, h, s);
                }
            }
            assert forall|done: int| 0 <= done < y + 1 implies line_blurred(
                #[trigger] row(initial, done, w, s),
                row(after, done, w, s),
                r,
                to_blurrable,
                to_pixel,
            ) by {
                if done < y {
                    assert(row(after, done, w, s) =~= row(before, done, w, s)) by {
                        assert forall|k: int| 0 <= k < w implies row(after, done, w, s)[k] == row(
                            before,
                            done,
                            w,
                            s,
                        )[k] by {
                            lemma_pixel_position(k, done, initial.len(), w, h, s);
                            if on_line(done * s + k, y * stride, 1, w) {
                                lemma_on_row(done * s + k, y as int, w, s);
                            }
                        }
                    }
                }
            }
        }
        y += 1;
    }
    let ghost mid = buffer@;
    let mut x: usize = 0;
    while x < width
        invariant
            x <= width,
            0 < height,
            initial.len() == len,
            (w, h, s, r) == (width as nat, height as nat, stride as nat, radius as nat),
            frame_fits(initial.len(), w, h, s),
            radius_fits::<B>(radius),
            forall|pixel: &T| #[trigger] to_blurrable.requires((pixel,)),
            forall|value: B| #[trigger] to_pixel.requires((value,)),
            buffer@.len() == initial.len(),
            mid.len() == initial.len(),
            forall|done: int|
                0 <= done < x ==> line_blurred(
                    #[trigger] column(mid, done, h, s),
                    column(buffer@, done, h, s),
                    r,
                    to_blurrable,
                    to_pixel,
                ),
            forall|i: int|
                0 <= i < initial.len() && !(i % (s as int) < x && i / (s as int) < h)
                    ==> #[trigger] buffer@[i] == mid[i],
        decreases width - x,
    {
        let ghost before = buffer@;
        proof {
            lemma_pixel_position(x as int, 0, initial.len(), w, h, s);
            lemma_pixel_position(x as int, h - 1, initial.len(), w, h, s);
        }
        ops = blur_line(
            buffer,
            x,
            stride,
            height,
            radius,
            &to_blurrable,
            &to_pixel,
            &mut values,
            ops,
        );
        proof {
            let after = buffer@;
            assert forall|i: int|
                0 <= i < initial.len() && !(i % (s as int) < x + 1 && i / (s as int) < h)
                implies #[trigger] after[i] == mid[i] by {
                if on_line(i, x as int, s as int, h) {
                    lemma_on_column(i, x as int, w, h, s);
                }
            }
            assert(column(mid, x as int, h, s) =~= column(before, x as int, h, s)) by {
                assert forall|k: int| 0 <= k < h implies column(mid, x as int, h, s)[k]
                    == column(before, x as int, h, s)[k] by {
                    lemma_pixel_position(x as int, k, initial.len(), w, h, s);
                }
            }
            assert forall|done: int| 0 <= done < x + 1 implies line_blurred(
                #[trigger] column(mid, done, h, s),
                column(after, done, h, s),
                r,
                to_blurrable,
                to_pixel,
            ) by {
                if done < x {
                    assert(column(after, done, h, s) =~= column(before, done, h, s)) by {
                        assert forall|k: int| 0 <= k < h implies column(after, done, h, s)[k]
                            == column(before, done, h, s)[k] by {
                            lemma_pixel_position(done, k, initial.len(), w, h, s);
                            if on_line(k * s + done, x as int, s as int, h) {
                                lemma_on_column(k * s + done, x as int, w, h, s);
                            }
                        }
                    }
                }
            }
        }
        x += 1;
    }
    proof {
        assert(rows_blurred(initial, mid, w, h, s, r, to_blurrable, to_pixel));
        assert(columns_blurred(mid, buffer@, w, h, s, r, to_blurrable, to_pixel));
    }
}

} // verus!
