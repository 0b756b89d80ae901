//! Blurring images of packed 32-bit colours that are held in an
//! [`imgref::Img`].
//!
//! An image is a buffer of pixels with a width, a height and a stride. What
//! the library knows of an image it learns through the four accessors of
//! `imgref::Img`, whose results are named here; the blur itself works on the
//! buffer that the image hands out.

use crate::arrays::{lanes_from, lemma_lanes_of_array};
use crate::color::{repacked, repacked_lanes, u32xN, unpacked, unpacked_lanes, Argb, BlurU32};
use crate::exact::{
    computes_lanes_pixel, computes_lanes_value, computes_pixel, computes_value, frame_blur,
    lemma_frame_blurred_exact, lemma_simd_frame_blurred_exact, simd_frame_computed,
};
use crate::frame::{blur, fits_frame, frame_fits};
use crate::iter::{fits_radius, radius_fits};
use crate::lanes::simd_blur;
use crate::parity::{lemma_simd_parity, repack_fn, repack_lanes_fn, unpack_fn, unpack_lanes_fn};
use crate::window::divisor;
use imgref::ImgRefMut;
use vstd::prelude::*;

verus! {

/// `imgref::Img`, the image type of the `imgref` crate, declared as a type
/// whose fields the verifier does not see.
#[verifier::external_type_specification]
#[verifier::external_body]
#[verifier::reject_recursive_types(Container)]
pub struct ExImg<Container>(imgref::Img<Container>);

/// What `imgref::Img::width` returns for the image: its width in pixels.
pub uninterp spec fn image_width(image: ImgRefMut<u32>) -> usize;

/// What `imgref::Img::height` returns for the image: its height in pixels.
pub uninterp spec fn image_height(image: ImgRefMut<u32>) -> usize;

/// What `imgref::Img::stride` returns for the image: the number of elements
/// from the start of one row to the start of the next.
pub uninterp spec fn image_stride(image: ImgRefMut<u32>) -> usize;

/// The elements of the buffer that `imgref::Img::buf_mut` hands out for the
/// image, padding included.
pub uninterp spec fn image_pixels(image: ImgRefMut<u32>) -> Seq<u32>;

/// Calls `imgref::Img::width`, which returns the width that the image was
/// made with. The contract gives that number its name.
#[verifier::external_body]
fn width_of(image: &ImgRefMut<u32>) -> (width: usize)
    ensures
        width == image_width(*image),
{
    image.width()
}

/// Calls `imgref::Img::height`, which returns the height that the image was
/// made with. The contract gives that number its name.
#[verifier::external_body]
fn height_of(image: &ImgRefMut<u32>) -> (height: usize)
    ensures
        height == image_height(*image),
{
    image.height()
}

/// Calls `imgref::Img::stride`, which returns the stride that the image was
/// made with. The contract gives that number its name.
#[verifier::external_body]
fn stride_of(image: &ImgRefMut<u32>) -> (stride: usize)
    ensures
        stride == image_stride(*image),
{
    image.stride()
}

/// Calls `imgref::Img::buf_mut`, which hands out the image's pixel buffer for
/// writing. The contract claims that the slice holds the image's elements,
/// that the image holds afterwards what was written to the slice, and that
/// its width, height and stride stay as they were: the buffer is a field of
/// its own, and the slice cannot be made longer or shorter.
#[verifier::external_body]
fn pixels_of<'a>(image: &'a mut ImgRefMut<u32>) -> (pixels: &'a mut [u32])
    ensures
        pixels@ == image_pixels(*old(image)),
        final(pixels)@.len() == pixels@.len(),
        image_pixels(*final(image)) == final(pixels)@,
        image_width(*final(image)) == image_width(*old(image)),
        image_height(*final(image)) == image_height(*old(image)),
        image_stride(*final(image)) == image_stride(*old(image)),
{
    image.buf_mut()
}

/// Whether the image's buffer holds every pixel that its width, height and
/// stride promise.
pub open spec fn image_fits(image: ImgRefMut<u32>) -> bool {
    frame_fits(
        image_pixels(image).len(),
        image_width(image) as nat,
        image_height(image) as nat,
        image_stride(image) as nat,
    )
}

/// The blur of a frame of packed colours: every pixel is split into its four
/// channels, the channels are blurred side by side, rows first and columns
/// after, and every blurred pixel is packed again.
pub open spec fn argb_blur(
    pixels: Seq<u32>,
    width: nat,
    height: nat,
    stride: nat,
    radius: nat,
) -> Seq<u32> {
    frame_blur(pixels, width, height, stride, radius, unpack_fn(), repack_fn())
}

/// Blurs a frame of packed colours in place.
pub fn blur_argb_frame(
    pixels: &mut [u32],
    width: usize,
    height: usize,
    stride: usize,
    radius: usize,
)
    requires
        frame_fits(old(pixels)@.len(), width as nat, height as nat, stride as nat),
        radius_fits::<Argb<BlurU32>>(radius),
    ensures
        final(pixels)@ == argb_blur(
            old(pixels)@,
            width as nat,
            height as nat,
            stride as nat,
            radius as nat,
        ),
{
    let ghost before = pixels@;
    let to_blurrable = |pixel: &u32| -> (channels: Argb<BlurU32>)
        ensures
            channels == unpacked(*pixel),
        { Argb::from(*pixel) };
    let to_pixel = |channels: Argb<BlurU32>| -> (pixel: u32)
        ensures
            pixel == repacked(channels),
        { u32::from(channels) };
    blur(pixels, width, height, stride, radius, to_blurrable, to_pixel);
    proof {
        assert(computes_value(to_blurrable, unpack_fn()));
        assert(computes_pixel(to_pixel, repack_fn()));
        lemma_frame_blurred_exact(
            before,
            pixels@,
            width as nat,
            height as nat,
            stride as nat,
            radius as nat,
            to_blurrable,
            to_pixel,
            unpack_fn(),
            repack_fn(),
        );
    }
}

/// Blurs an image of 32-bit packed ARGB pixels (`0xAARRGGBB`) in place.
///
/// The channels are blurred in 32-bit accumulators that wrap around. This
/// gives good results for radii up to 4096; with larger radii the sums may
/// wrap.
pub fn blur_argb(buffer: &mut ImgRefMut<u32>, radius: usize)
    requires
        image_fits(*old(buffer)),
        radius_fits::<Argb<BlurU32>>(radius),
    ensures
        image_pixels(*final(buffer)) == argb_blur(
            image_pixels(*old(buffer)),
            image_width(*old(buffer)) as nat,
            image_height(*old(buffer)) as nat,
            image_stride(*old(buffer)) as nat,
            radius as nat,
        ),
        image_width(*final(buffer)) == image_width(*old(buffer)),
        image_height(*final(buffer)) == image_height(*old(buffer)),
        image_stride(*final(buffer)) == image_stride(*old(buffer)),
{
    let width = width_of(buffer);
    let height = height_of(buffer);
    let stride = stride_of(buffer);
    let pixels = pixels_of(buffer);
    blur_argb_frame(pixels, width, height, stride, radius);
}

/// Blurs an image of packed colours in place if its buffer holds the frame
/// and the radius can be used, and says whether it did. Otherwise the image
/// is left as it was.
pub fn try_blur_argb(buffer: &mut ImgRefMut<u32>, radius: usize) -> (done: bool)
    ensures
        done == (image_fits(*old(buffer)) && radius_fits::<Argb<BlurU32>>(radius)),
        done ==> image_pixels(*final(buffer)) == argb_blur(
            image_pixels(*old(buffer)),
            image_width(*old(buffer)) as nat,
            image_height(*old(buffer)) as nat,
            image_stride(*old(buffer)) as nat,
            radius as nat,
        ),
        !done ==> image_pixels(*final(buffer)) == image_pixels(*old(buffer)),
        image_width(*final(buffer)) == image_width(*old(buffer)),
        image_height(*final(buffer)) == image_height(*old(buffer)),
        image_stride(*final(buffer)) == image_stride(*old(buffer)),
{
    let width = width_of(buffer);
    let height = height_of(buffer);
    let stride = stride_of(buffer);
    let len = pixels_of(buffer).len();
    if fits_frame(len, width, height, stride) && fits_radius::<Argb<BlurU32>>(radius) {
        blur_argb(buffer, radius);
        true
    } else {
        false
    }
}

/// Whether `dst` is the frame of packed colours in `src` blurred with `LANES`
/// lines side by side: in each pass, rows first and columns after, the
/// channels of every full group of `LANES` lines are blurred in lane-packed
/// accumulators, and those of the lines that are left over in scalar ones.
pub open spec fn simd_argb_blurred<const LANES: usize>(
    src: Seq<u32>,
    dst: Seq<u32>,
    width: nat,
    height: nat,
    stride: nat,
    radius: nat,
) -> bool {
    simd_frame_computed(
        src,
        dst,
        width,
        height,
        stride,
        radius,
        unpack_lanes_fn::<LANES>(),
        repack_lanes_fn::<LANES>(),
        unpack_fn(),
        repack_fn(),
    )
}

/// Copies the pixels that an array of references refers to.
fn copied<const N: usize>(pixels: [&u32; N]) -> (values: [u32; N])
    ensures
        values == lanes_from::<u32, N>(|j: int| *pixels[j]),
{
    let mut values = [0u32;N];
    let mut i: usize = 0;
    while i < N
        invariant
            i <= N,
            forall|j: int| 0 <= j < i ==> #[trigger] values[j] == *pixels[j],
        decreases N - i,
    {
        values[i] = *pixels[i];
        i += 1;
    }
    proof {
        lemma_lanes_of_array(values, |j: int| *pixels[j]);
    }
    values
}

/// Blurs a frame of packed colours in place, `LANES` lines side by side.
pub fn simd_blur_argb_frame<const LANES: usize>(
    pixels: &mut [u32],
    width: usize,
    height: usize,
    stride: usize,
    radius: usize,
)
    requires
        LANES >= 1,
        frame_fits(old(pixels)@.len(), width as nat, height as nat, stride as nat),
        radius_fits::<Argb<BlurU32>>(radius),
    ensures
        simd_argb_blurred::<LANES>(
            old(pixels)@,
            final(pixels)@,
            width as nat,
            height as nat,
            stride as nat,
            radius as nat,
        ),
        divisor(radius as nat) <= u32::MAX ==> final(pixels)@ == argb_blur(
            old(pixels)@,
            width as nat,
            height as nat,
            stride as nat,
            radius as nat,
        ),
        final(pixels)@.len() == old(pixels)@.len(),
{
    let ghost before = pixels@;
    let to_blurrable_simd = |group: [&u32; LANES]| -> (channels: Argb<u32xN<LANES>>)
        ensures
            channels == unpacked_lanes(lanes_from::<u32, LANES>(|j: int| *group[j])),
        { Argb::from(copied(group)) };
    let to_pixel_simd = |channels: Argb<u32xN<LANES>>| -> (group: [u32; LANES])
        ensures
            group == repacked_lanes(channels),
        { <[u32; LANES]>::from(channels) };
    let to_blurrable = |pixel: &u32| -> (channels: Argb<BlurU32>)
        ensures
            channels == unpacked(*pixel),
        { Argb::from(*pixel) };
    let to_pixel = |channels: Argb<BlurU32>| -> (pixel: u32)
        ensures
            pixel == repacked(channels),
        { u32::from(channels) };
    simd_blur(
        pixels,
        width,
        height,
        stride,
        radius,
        to_blurrable_simd,
        to_pixel_simd,
        to_blurrable,
        to_pixel,
    );
    proof {
        assert(computes_lanes_value(to_blurrable_simd, unpack_lanes_fn::<LANES>()));
        assert(computes_lanes_pixel(to_pixel_simd, repack_lanes_fn::<LANES>()));
        assert(computes_value(to_blurrable, unpack_fn()));
        assert(computes_pixel(to_pixel, repack_fn()));
        lemma_simd_frame_blurred_exact(
            before,
            pixels@,
            width as nat,
            height as nat,
            stride as nat,
            radius as nat,
            to_blurrable_simd,
            to_pixel_simd,
            to_blurrable,
            to_pixel,
            unpack_lanes_fn::<LANES>(),
            repack_lanes_fn::<LANES>(),
            unpack_fn(),
            repack_fn(),
        );
        if divisor(radius as nat) <= u32::MAX {
            lemma_simd_parity::<LANES>(
                before,
                pixels@,
                width as nat,
                height as nat,
                stride as nat,
                radius as nat,
            );
        }
    }
}

/// Blurs an image of 32-bit packed ARGB pixels (`0xAARRGGBB`) in place,
/// `LANES` lines side by side.
///
/// The channels are blurred in 32-bit accumulators that wrap around. This
/// gives good results for radii up to 4096; with larger radii the sums may
/// wrap. As long as `(radius + 1)^2` fits in 32 bits the result is that of
/// [`blur_argb`].
pub fn simd_blur_argb<const LANES: usize>(buffer: &mut ImgRefMut<u32>, radius: usize)
    requires
        LANES >= 1,
        image_fits(*old(buffer)),
        radius_fits::<Argb<BlurU32>>(radius),
    ensures
        simd_argb_blurred::<LANES>(
            image_pixels(*old(buffer)),
            image_pixels(*final(buffer)),
            image_width(*old(buffer)) as nat,
            image_height(*old(buffer)) as nat,
            image_stride(*old(buffer)) as nat,
            radius as nat,
        ),
        divisor(radius as nat) <= u32::MAX ==> image_pixels(*final(buffer)) == argb_blur(
            image_pixels(*old(buffer)),
            image_width(*old(buffer)) as nat,
            image_height(*old(buffer)) as nat,
            image_stride(*old(buffer)) as nat,
            radius as nat,
        ),
        image_width(*final(buffer)) == image_width(*old(buffer)),
        image_height(*final(buffer)) == image_height(*old(buffer)),
        image_stride(*final(buffer)) == image_stride(*old(buffer)),
{
    let width = width_of(buffer);
    let height = height_of(buffer);
    let stride = stride_of(buffer);
    let pixels = pixels_of(buffer);
    simd_blur_argb_frame::<LANES>(pixels, width, height, stride, radius);
}

/// Blurs an image of packed colours in place, `LANES` lines side by side, if
/// there is at least one lane, the image's buffer holds the frame and the
/// radius can be used, and says whether it did. Otherwise the image is left
/// as it was.
pub fn try_simd_blur_argb<const LANES: usize>(buffer: &mut ImgRefMut<u32>, radius: usize) -> (done:
    bool)
    ensures
        done == (LANES >= 1 && image_fits(*old(buffer)) && radius_fits::<Argb<BlurU32>>(radius)),
        done ==> simd_argb_blurred::<LANES>(
            image_pixels(*old(buffer)),
            image_pixels(*final(buffer)),
            image_width(*old(buffer)) as nat,
            image_height(*old(buffer)) as nat,
            image_stride(*old(buffer)) as nat,
            radius as nat,
        ),
        done && divisor(radius as nat) <= u32::MAX ==> image_pixels(*final(buffer)) == argb_blur(
            image_pixels(*old(buffer)),
            image_width(*old(buffer)) as nat,
            image_height(*old(buffer)) as nat,
            image_stride(*old(buffer)) as nat,
            radius as nat,
        ),
        !done ==> image_pixels(*final(buffer)) == image_pixels(*old(buffer)),
        image_width(*final(buffer)) == image_width(*old(buffer)),
        image_height(*final(buffer)) == image_height(*old(buffer)),
        image_stride(*final(buffer)) == image_stride(*old(buffer)),
{
    let width = width_of(buffer);
    let height = height_of(buffer);
    let stride = stride_of(buffer);
    let len = pixels_of(buffer).len();
    if LANES >= 1 && fits_frame(len, width, height, stride) && fits_radius::<Argb<BlurU32>>(
        radius,
    ) {
        simd_blur_argb::<LANES>(buffer, radius);
        true
    } else {
        false
    }
}

} // verus!
