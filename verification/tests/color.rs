use slur::color::{pack, Argb, BlurU32};
use slur::traits::StackBlurrable;

#[test]
fn argb_splits_a_packed_colour() {
    let channels = Argb::from(0x12_34_56_78u32);
    assert_eq!(channels.alpha, BlurU32(0x12));
    assert_eq!(channels.red, BlurU32(0x34));
    assert_eq!(channels.green, BlurU32(0x56));
    assert_eq!(channels.blue, BlurU32(0x78));
}

#[test]
fn argb_packs_the_low_bytes() {
    let channels = Argb {
        alpha: BlurU32(0x1ff),
        red: BlurU32(0x100),
        green: BlurU32(0xffff_ff01),
        blue: BlurU32(0x7f),
    };
    assert_eq!(u32::from(channels), 0xff_00_01_7f);
}

#[test]
fn argb_round_trip() {
    for pixel in [0u32, 1, 0xff, 0xff00, 0x12_34_56_78, 0x80_00_00_00, u32::MAX] {
        assert_eq!(u32::from(Argb::from(pixel)), pixel);
    }
    let mut pixel = 0x9e37_79b9u32;
    for _ in 0..1000 {
        pixel = pixel.wrapping_mul(1_664_525).wrapping_add(1_013_904_223);
        let round: u32 = Argb::from(pixel).into();
        assert_eq!(round, pixel);
    }
}

#[test]
fn argb_arithmetic_works_channel_by_channel() {
    let a = Argb::from(0x01_02_03_04u32);
    let b = Argb::from(0x10_20_30_40u32);
    assert_eq!(u32::from(a.add(b)), 0x11_22_33_44);
    assert_eq!(u32::from(b.sub(a)), 0x0f_1e_2d_3c);
    assert_eq!(u32::from(a.mul(3)), 0x03_06_09_0c);
    assert_eq!(u32::from(b.div(16)), 0x01_02_03_04);
    assert_eq!(u32::from(Argb::<BlurU32>::zero()), 0);
    let mut c = a;
    c.add_assign(b);
    c.sub_assign(a);
    assert_eq!(c, b);
}

#[test]
fn argb_channels_do_not_carry_into_each_other() {
    let a = Argb::from(0x00_ff_ff_ffu32);
    let sum = a.add(a);
    assert_eq!(sum.red, BlurU32(0x1fe));
    assert_eq!(sum.alpha, BlurU32(0));
    assert_eq!(u32::from(sum.div(2)), 0x00_ff_ff_ff);
}

#[test]
fn pack_takes_the_low_byte_of_each_channel() {
    assert_eq!(pack(0x12, 0x34, 0x56, 0x78), 0x12_34_56_78);
    assert_eq!(pack(0x1ff, 0x200, 0xffff_ff03, 0x104), 0xff_00_03_04);
}
