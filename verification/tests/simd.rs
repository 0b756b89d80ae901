use imgref::{Img, ImgVec};
use slur::color::{u32xN, Argb, BlurU32};
use slur::image::{blur_argb, simd_blur_argb, try_simd_blur_argb};
use slur::lanes::{blur_lanes, blur_pass, simd_blur};
use slur::traits::StackBlurrable;
use std::cell::Cell;
use std::collections::VecDeque;

fn pattern(width: usize, height: usize) -> Vec<u32> {
    (0..width * height)
        .map(|i| (i as u32).wrapping_mul(2_654_435_761) ^ ((i as u32) << 7))
        .collect()
}

fn scalar(pixels: &[u32], width: usize, height: usize, radius: usize) -> Vec<u32> {
    let mut image: ImgVec<u32> = Img::new(pixels.to_vec(), width, height);
    blur_argb(&mut image.as_mut(), radius);
    image.into_buf()
}

fn lanes<const LANES: usize>(
    pixels: &[u32],
    width: usize,
    height: usize,
    radius: usize,
) -> Vec<u32> {
    let mut image: ImgVec<u32> = Img::new(pixels.to_vec(), width, height);
    simd_blur_argb::<LANES>(&mut image.as_mut(), radius);
    image.into_buf()
}

#[test]
fn lanes_agree_with_scalar_when_sizes_are_multiples() {
    let pixels = pattern(8, 8);
    for radius in [0, 1, 2, 5, 16] {
        let expected = scalar(&pixels, 8, 8, radius);
        assert_eq!(lanes::<1>(&pixels, 8, 8, radius), expected);
        assert_eq!(lanes::<2>(&pixels, 8, 8, radius), expected);
        assert_eq!(lanes::<4>(&pixels, 8, 8, radius), expected);
        assert_eq!(lanes::<8>(&pixels, 8, 8, radius), expected);
    }
}

#[test]
fn lanes_agree_with_scalar_when_lines_are_left_over() {
    let pixels = pattern(7, 5);
    for radius in [0, 1, 3, 9] {
        let expected = scalar(&pixels, 7, 5, radius);
        assert_eq!(lanes::<2>(&pixels, 7, 5, radius), expected);
        assert_eq!(lanes::<4>(&pixels, 7, 5, radius), expected);
        assert_eq!(lanes::<8>(&pixels, 7, 5, radius), expected);
    }
}

#[test]
fn lanes_centre_pixel() {
    let mut image: ImgVec<u32> = Img::new(vec![0, 0, 0, 0, 16, 0, 0, 0, 0], 3, 3);
    simd_blur_argb::<2>(&mut image.as_mut(), 1);
    assert_eq!(image.buf(), &vec![1, 2, 1, 2, 4, 2, 1, 2, 1]);
}

#[test]
fn lanes_respect_the_stride() {
    let mut image: ImgVec<u32> = Img::new_stride(vec![0, 16, 0, 777, 0, 16, 0], 3, 2, 4);
    simd_blur_argb::<2>(&mut image.as_mut(), 1);
    assert_eq!(image.buf(), &vec![4, 8, 4, 777, 4, 8, 4]);
}

#[test]
fn try_simd_blur_argb_refuses_zero_lanes() {
    let mut image: ImgVec<u32> = Img::new(vec![0, 0, 0, 0, 16, 0, 0, 0, 0], 3, 3);
    assert!(!try_simd_blur_argb::<0>(&mut image.as_mut(), 1));
    assert_eq!(image.buf(), &vec![0, 0, 0, 0, 16, 0, 0, 0, 0]);
}

#[test]
fn try_simd_blur_argb_refuses_a_short_buffer() {
    let mut pixels = vec![1u32, 2, 3, 4, 5];
    let mut image = Img::new(&mut pixels[..], 3, 2);
    assert!(!try_simd_blur_argb::<2>(&mut image, 1));
    assert_eq!(pixels, vec![1, 2, 3, 4, 5]);
}

#[test]
fn try_simd_blur_argb_blurs_a_sound_image() {
    let pixels = pattern(6, 6);
    let mut image: ImgVec<u32> = Img::new(pixels.clone(), 6, 6);
    assert!(try_simd_blur_argb::<4>(&mut image.as_mut(), 2));
    assert_eq!(image.into_buf(), scalar(&pixels, 6, 6, 2));
}

#[test]
fn simd_blur_with_own_conversions() {
    // two lanes of plain sums; the left-over row goes through the scalar closures
    let mut buffer: Vec<u32> = vec![0, 16, 0, 0, 32, 0, 0, 64, 0];
    simd_blur(
        &mut buffer,
        3,
        3,
        3,
        1,
        |pixels: [&u32; 2]| u32xN([*pixels[0], *pixels[1]]),
        |value: u32xN<2>| value.0,
        |pixel: &u32| BlurU32(*pixel),
        |value: BlurU32| value.0,
    );
    // rows: [4 8 4] [8 16 8] [16 32 16]; columns of these with weights 1 2 1
    assert_eq!(buffer, vec![5, 10, 5, 9, 18, 9, 14, 28, 14]);
}

#[test]
fn lane_arithmetic_works_lane_by_lane() {
    let a = u32xN([1, u32::MAX, 10, 0x8000_0001]);
    let b = u32xN([2, 2, 20, 0x8000_0001]);
    assert_eq!(a.add(b), u32xN([3, 1, 30, 2]));
    assert_eq!(a.sub(b), u32xN([u32::MAX, u32::MAX - 2, u32::MAX - 9, 0]));
    assert_eq!(a.mul(2), u32xN([2, u32::MAX - 1, 20, 2]));
    assert_eq!(a.div(3), u32xN([0, u32::MAX / 3, 3, 0x8000_0001 / 3]));
    assert_eq!(u32xN::<4>::zero(), u32xN([0; 4]));
    let mut c = a;
    c.add_assign(b);
    c.sub_assign(a);
    assert_eq!(c, b);
}

#[test]
fn lane_division_uses_the_whole_count() {
    if usize::BITS > 32 {
        let count = (1usize << 32) + 2;
        // the scalar accumulator divides by the low 32 bits of the count
        assert_eq!(BlurU32(100).div(count), BlurU32(50));
        assert_eq!(u32xN([100, 7]).div(count), u32xN([0, 0]));
    }
}

#[test]
fn argb_lanes_transpose_pixels_into_channels() {
    let channels: Argb<u32xN<2>> = Argb::from([0x01_02_03_04, 0xa0_b0_c0_d0]);
    assert_eq!(channels.alpha, u32xN([0x01, 0xa0]));
    assert_eq!(channels.red, u32xN([0x02, 0xb0]));
    assert_eq!(channels.green, u32xN([0x03, 0xc0]));
    assert_eq!(channels.blue, u32xN([0x04, 0xd0]));
    let pixels: [u32; 2] = channels.into();
    assert_eq!(pixels, [0x01_02_03_04, 0xa0_b0_c0_d0]);
}

#[test]
fn argb_lanes_truncate_each_channel() {
    let channels = Argb {
        alpha: u32xN([0x1ff, 0]),
        red: u32xN([0x100, 0x2ab]),
        green: u32xN([0xffff_ff01, 7]),
        blue: u32xN([0x300, 0x1_00]),
    };
    let pixels: [u32; 2] = channels.into();
    assert_eq!(pixels, [0xff_00_01_00, 0x00_ab_07_00]);
}

#[test]
fn blur_lanes_blurs_a_group_of_lines() {
    let mut buffer: Vec<u32> = vec![0, 16, 0, 0, 32, 0, 7, 7, 7];
    let mut values = Vec::new();
    let ops = blur_lanes(
        &mut buffer,
        0,
        3,
        1,
        3,
        1,
        &|pixels: [&u32; 2]| u32xN([*pixels[0], *pixels[1]]),
        &|value: u32xN<2>| value.0,
        &mut values,
        VecDeque::new(),
    );
    assert_eq!(buffer, vec![4, 8, 4, 8, 16, 8, 7, 7, 7]);
    assert_eq!(values, vec![u32xN([0, 0]), u32xN([16, 32]), u32xN([0, 0])]);
    assert_eq!(ops.len(), 4);
}

#[test]
fn blur_pass_groups_lines_and_takes_the_rest_one_by_one() {
    let groups = Cell::new(0);
    let singles = Cell::new(0);
    let mut buffer: Vec<u32> = vec![0, 16, 0, 0, 32, 0, 0, 64, 0];
    let mut values_simd = Vec::new();
    let mut values_single = Vec::new();
    blur_pass(
        &mut buffer,
        3,
        3,
        3,
        1,
        1,
        &|pixels: [&u32; 2]| {
            groups.set(groups.get() + 1);
            u32xN([*pixels[0], *pixels[1]])
        },
        &|value: u32xN<2>| value.0,
        &|pixel: &u32| {
            singles.set(singles.get() + 1);
            BlurU32(*pixel)
        },
        &|value: BlurU32| value.0,
        &mut values_simd,
        &mut values_single,
        VecDeque::new(),
        VecDeque::new(),
    );
    assert_eq!(buffer, vec![4, 8, 4, 8, 16, 8, 16, 32, 16]);
    assert_eq!((groups.get(), singles.get()), (3, 3));
}

#[test]
fn uniform_image_survives_the_largest_safe_radius() {
    let mut image: ImgVec<u32> = Img::new(vec![0xff_ff_ff_ff; 5 * 3], 5, 3);
    blur_argb(&mut image.as_mut(), 4096);
    assert!(image.buf().iter().all(|pixel| *pixel == 0xff_ff_ff_ff));
    simd_blur_argb::<4>(&mut image.as_mut(), 4096);
    assert!(image.buf().iter().all(|pixel| *pixel == 0xff_ff_ff_ff));
}

#[test]
fn blur_argb_with_radius_zero_changes_nothing() {
    let pixels = pattern(5, 4);
    assert_eq!(scalar(&pixels, 5, 4, 0), pixels);
    assert_eq!(lanes::<2>(&pixels, 5, 4, 0), pixels);
}
