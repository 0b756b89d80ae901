use imgref::{Img, ImgVec};
use slur::image::{blur_argb, try_blur_argb};

#[test]
fn blur_argb_blurs_each_channel() {
    let centre = 0x10_20_40_80u32;
    let mut image: ImgVec<u32> = Img::new(vec![0, 0, 0, 0, centre, 0, 0, 0, 0], 3, 3);
    blur_argb(&mut image.as_mut(), 1);
    let (pixels, width, height) = image.into_contiguous_buf();
    assert_eq!((width, height), (3, 3));
    assert_eq!(
        pixels,
        vec![
            0x01_02_04_08, 0x02_04_08_10, 0x01_02_04_08,
            0x02_04_08_10, 0x04_08_10_20, 0x02_04_08_10,
            0x01_02_04_08, 0x02_04_08_10, 0x01_02_04_08,
        ]
    );
}

#[test]
fn blur_argb_keeps_a_uniform_image() {
    let mut image: ImgVec<u32> = Img::new(vec![0xff_80_40_01; 6 * 5], 6, 5);
    blur_argb(&mut image.as_mut(), 3);
    assert!(image.buf().iter().all(|pixel| *pixel == 0xff_80_40_01));
}

#[test]
fn blur_argb_respects_the_stride() {
    let mut image: ImgVec<u32> = Img::new_stride(vec![0, 16, 0, 777, 0, 16, 0], 3, 2, 4);
    blur_argb(&mut image.as_mut(), 1);
    assert_eq!(image.buf(), &vec![4, 8, 4, 777, 4, 8, 4]);
}

#[test]
fn blur_argb_works_on_a_part_of_an_image() {
    let mut image: ImgVec<u32> = Img::new(vec![9; 16], 4, 4);
    {
        let mut part = image.sub_image_mut(1, 1, 2, 2);
        part[(0usize, 0usize)] = 0;
        part[(1usize, 0usize)] = 16;
        part[(0usize, 1usize)] = 0;
        part[(1usize, 1usize)] = 16;
        blur_argb(&mut part, 1);
    }
    assert_eq!(image.buf(), &vec![9, 9, 9, 9, 9, 4, 12, 9, 9, 4, 12, 9, 9, 9, 9, 9]);
}

#[test]
fn try_blur_argb_refuses_a_short_buffer() {
    let mut pixels = vec![1u32, 2, 3, 4, 5];
    let mut image = Img::new(&mut pixels[..], 3, 2);
    assert!(!try_blur_argb(&mut image, 1));
    assert_eq!(pixels, vec![1, 2, 3, 4, 5]);
}

#[test]
fn try_blur_argb_refuses_a_radius_it_cannot_divide_by() {
    let mut image: ImgVec<u32> = Img::new(vec![7; 4], 2, 2);
    // (65535 + 1)^2 is 2^32, whose low 32 bits are zero
    assert!(!try_blur_argb(&mut image.as_mut(), 65535));
    assert_eq!(image.buf(), &vec![7; 4]);
}

#[test]
fn try_blur_argb_blurs_a_sound_image() {
    let mut image: ImgVec<u32> = Img::new(vec![0, 0, 0, 0, 16, 0, 0, 0, 0], 3, 3);
    assert!(try_blur_argb(&mut image.as_mut(), 1));
    assert_eq!(image.buf(), &vec![1, 2, 1, 2, 4, 2, 1, 2, 1]);
}
