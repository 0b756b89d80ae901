use slur::color::BlurU32;
use slur::frame::{blur, blur_line, fits_frame};
use std::collections::VecDeque;

fn to_value(pixel: &u32) -> BlurU32 {
    BlurU32(*pixel)
}

fn to_pixel(value: BlurU32) -> u32 {
    value.0
}

#[test]
fn centre_pixel_spreads_over_rows_then_columns() {
    let mut buffer = vec![0, 0, 0, 0, 16, 0, 0, 0, 0];
    blur(&mut buffer, 3, 3, 3, 1, to_value, to_pixel);
    assert_eq!(buffer, vec![1, 2, 1, 2, 4, 2, 1, 2, 1]);
}

#[test]
fn rows_are_blurred_before_columns() {
    // the row pass truncates 5 / 4 to 1 before the column pass sees it
    let mut buffer = vec![0, 0, 0, 0, 5, 0, 0, 0, 0];
    blur(&mut buffer, 3, 3, 3, 1, to_value, to_pixel);
    assert_eq!(buffer, vec![0, 0, 0, 0, 1, 0, 0, 0, 0]);
}

#[test]
fn blur_with_radius_zero_changes_nothing() {
    let initial: Vec<u32> = (0..20).map(|v| v * 31 % 256).collect();
    let mut buffer = initial.clone();
    blur(&mut buffer, 5, 4, 5, 0, to_value, to_pixel);
    assert_eq!(buffer, initial);
}

#[test]
fn padding_between_rows_is_left_alone() {
    let mut buffer = vec![0, 16, 0, 777, 0, 16, 0, 888, 0, 16, 0];
    blur(&mut buffer, 3, 3, 4, 1, to_value, to_pixel);
    assert_eq!(buffer, vec![4, 8, 4, 777, 4, 8, 4, 888, 4, 8, 4]);
}

#[test]
fn empty_frames_are_left_alone() {
    let mut buffer = vec![1, 2, 3];
    blur(&mut buffer, 0, 3, 1, 2, to_value, to_pixel);
    assert_eq!(buffer, vec![1, 2, 3]);
    blur(&mut buffer, 3, 0, 3, 2, to_value, to_pixel);
    assert_eq!(buffer, vec![1, 2, 3]);
    let mut nothing: Vec<u32> = Vec::new();
    blur(&mut nothing, 0, 0, 0, 2, to_value, to_pixel);
    assert!(nothing.is_empty());
}

#[test]
fn blur_line_blurs_every_other_element() {
    let mut buffer = vec![0, 91, 16, 92, 0, 93];
    let mut values = Vec::new();
    let ops =
        blur_line(&mut buffer, 0, 2, 3, 1, &to_value, &to_pixel, &mut values, VecDeque::new());
    assert_eq!(buffer, vec![4, 91, 8, 92, 4, 93]);
    assert_eq!(values, vec![BlurU32(0), BlurU32(16), BlurU32(0)]);
    let ops = blur_line(&mut buffer, 5, 1, 0, 1, &to_value, &to_pixel, &mut values, ops);
    assert_eq!(buffer, vec![4, 91, 8, 92, 4, 93]);
    assert!(values.is_empty());
    assert!(ops.is_empty());
}

#[test]
fn fits_frame_tests_the_buffer() {
    assert!(fits_frame(6, 3, 2, 3));
    assert!(!fits_frame(5, 3, 2, 3));
    // the last row needs no padding
    assert!(fits_frame(7, 3, 2, 4));
    assert!(!fits_frame(6, 3, 2, 4));
    assert!(!fits_frame(100, 4, 2, 3));
    assert!(fits_frame(0, 0, 5, 0));
    assert!(fits_frame(0, 3, 0, 3));
    assert!(fits_frame(0, 0, 0, 0));
    assert!(!fits_frame(usize::MAX, 1, usize::MAX, 2));
    assert!(!fits_frame(usize::MAX, 3, 2, usize::MAX));
}

#[test]
fn blur_of_pixels_that_are_not_numbers() {
    let mut buffer = vec![(0u8, 'a'), (16u8, 'b'), (0u8, 'c')];
    blur(
        &mut buffer,
        3,
        1,
        3,
        1,
        |pixel: &(u8, char)| BlurU32(pixel.0 as u32),
        |value: BlurU32| (value.0 as u8, 'z'),
    );
    assert_eq!(buffer, vec![(4, 'z'), (8, 'z'), (4, 'z')]);
}
