use slur::color::{truncate_count, u32xN, Argb, BlurU32};
use slur::iter::{fits_radius, StackBlur};
use slur::traits::StackBlurrable;
use std::collections::VecDeque;

fn run(input: &[u32], radius: usize) -> Vec<u32> {
    let values: Vec<BlurU32> = input.iter().map(|v| BlurU32(*v)).collect();
    let mut engine = StackBlur::new(&values, radius, VecDeque::new());
    let mut out = Vec::new();
    while let Some(value) = engine.next() {
        out.push(value.0);
    }
    out
}

fn direct_sum(input: &[u32], radius: usize) -> Vec<u32> {
    let len = input.len() as i64;
    let r = radius as i64;
    (0..len)
        .map(|i| {
            let mut sum: u64 = 0;
            for k in -r..=r {
                let j = (i + k).clamp(0, len - 1) as usize;
                let w = (r + 1 - k.abs()) as u64;
                sum += w * input[j] as u64;
            }
            (sum / ((r + 1) * (r + 1)) as u64) as u32
        })
        .collect()
}

#[test]
fn empty_input_gives_empty_output() {
    assert_eq!(run(&[], 0), Vec::<u32>::new());
    assert_eq!(run(&[], 5), Vec::<u32>::new());
}

#[test]
fn radius_zero_is_the_identity() {
    let input = [7, 0, 255, 12, 99, 4_000_000_000];
    assert_eq!(run(&input, 0), input.to_vec());
}

#[test]
fn output_is_as_long_as_input() {
    for len in 0..12usize {
        let input: Vec<u32> = (0..len as u32).map(|v| v * 17 % 256).collect();
        for radius in 0..6 {
            assert_eq!(run(&input, radius).len(), len);
        }
    }
}

#[test]
fn uniform_input_stays_uniform() {
    for radius in 0..9 {
        assert_eq!(run(&[200; 7], radius), vec![200; 7]);
        assert_eq!(run(&[255; 1], radius), vec![255; 1]);
    }
}

#[test]
fn single_spike_radius_one() {
    assert_eq!(run(&[0, 16, 0], 1), vec![4, 8, 4]);
    assert_eq!(run(&[0, 0, 16, 0, 0], 1), vec![0, 4, 8, 4, 0]);
}

#[test]
fn edge_values_are_repeated() {
    // weights 1 2 3 2 1 over 9; the first element stands for the positions before it
    assert_eq!(run(&[90, 0, 0, 0], 2), vec![60, 30, 10, 0]);
    assert_eq!(run(&[0, 0, 0, 90], 2), vec![0, 10, 30, 60]);
}

#[test]
fn step_input_gives_a_monotone_ramp() {
    let input = [10, 10, 10, 10, 10, 10, 250, 250, 250, 250, 250, 250];
    let out = run(&input, 2);
    assert_eq!(out, vec![10, 10, 10, 10, 36, 90, 170, 223, 250, 250, 250, 250]);
    for pair in out.windows(2) {
        assert!(pair[0] <= pair[1]);
    }
}

#[test]
fn engine_matches_the_direct_sum() {
    let input: Vec<u32> = (0..40u32).map(|v| (v * 7919 + 13) % 256).collect();
    for radius in 0..12 {
        assert_eq!(run(&input, radius), direct_sum(&input, radius));
    }
    for len in 1..6usize {
        for radius in 0..8 {
            assert_eq!(run(&input[..len], radius), direct_sum(&input[..len], radius));
        }
    }
}

#[test]
fn sums_wrap_around() {
    // 4_000_000_000 * 4 wraps modulo 2^32 before it is divided
    let expected = ((4_000_000_000u64 * 4) % (1u64 << 32)) / 4;
    assert_eq!(run(&[4_000_000_000; 3], 1), vec![expected as u32; 3]);
}

#[test]
fn scratch_queue_is_cleared_and_handed_back() {
    let mut ops = VecDeque::new();
    ops.push_back(BlurU32(12345));
    let values = [BlurU32(0), BlurU32(16), BlurU32(0)];
    let mut engine = StackBlur::new(&values, 1, ops);
    assert_eq!(engine.next(), Some(BlurU32(4)));
    assert_eq!(engine.next(), Some(BlurU32(8)));
    assert_eq!(engine.next(), Some(BlurU32(4)));
    assert_eq!(engine.next(), None);
    assert_eq!(engine.next(), None);
    let ops = engine.into_ops();
    assert_eq!(ops.len(), 4);
}

#[test]
fn scalar_arithmetic_wraps() {
    assert_eq!(BlurU32(u32::MAX).add(BlurU32(2)), BlurU32(1));
    assert_eq!(BlurU32(1).sub(BlurU32(2)), BlurU32(u32::MAX));
    assert_eq!(BlurU32(0x8000_0001).mul(2), BlurU32(2));
    assert_eq!(BlurU32(100).div(7), BlurU32(14));
    assert_eq!(BlurU32::zero(), BlurU32(0));
    let mut value = BlurU32(5);
    value.add_assign(BlurU32(10));
    assert_eq!(value, BlurU32(15));
    value.sub_assign(BlurU32(20));
    assert_eq!(value, BlurU32(u32::MAX - 4));
}

#[test]
fn collect_hands_out_what_is_left() {
    let values = [BlurU32(0), BlurU32(0), BlurU32(16), BlurU32(0), BlurU32(0)];
    let mut engine = StackBlur::new(&values, 1, VecDeque::new());
    assert_eq!(engine.next(), Some(BlurU32(0)));
    assert_eq!(engine.collect(), vec![BlurU32(4), BlurU32(8), BlurU32(4), BlurU32(0)]);
    assert_eq!(engine.collect(), Vec::new());
    assert_eq!(engine.next(), None);
}

#[test]
fn collect_on_empty_input_is_empty() {
    let values: [BlurU32; 0] = [];
    let mut engine = StackBlur::new(&values, 3, VecDeque::new());
    assert_eq!(engine.collect(), Vec::new());
    assert!(engine.into_ops().is_empty());
}

#[test]
fn scratch_queue_holds_the_window() {
    let values = [BlurU32(1), BlurU32(2), BlurU32(3), BlurU32(4), BlurU32(5)];
    let engine = StackBlur::new(&values, 1, VecDeque::new());
    // taps -1, 0, 1, 2 around position 0
    assert_eq!(Vec::from(engine.into_ops()), vec![BlurU32(1), BlurU32(1), BlurU32(2), BlurU32(3)]);
    let mut engine = StackBlur::new(&values, 1, VecDeque::new());
    engine.next();
    engine.next();
    engine.next();
    engine.next();
    // taps 3, 4, 5, 6 around position 4; the last element stands for what lies beyond
    assert_eq!(Vec::from(engine.into_ops()), vec![BlurU32(4), BlurU32(5), BlurU32(5), BlurU32(5)]);
}

#[test]
fn radius_may_exceed_the_length() {
    assert_eq!(run(&[9], 7), vec![9]);
    assert_eq!(run(&[0, 64], 3), direct_sum(&[0, 64], 3));
    // weights 1 2 3 4 3 2 1 over 16; four taps up to the centre hold 0
    assert_eq!(run(&[0, 64], 3), vec![24, 40]);
}

#[test]
fn falling_step_gives_a_falling_ramp() {
    let input = [200, 200, 200, 200, 200, 40, 40, 40, 40, 40];
    let out = run(&input, 1);
    assert_eq!(out, vec![200, 200, 200, 200, 160, 80, 40, 40, 40, 40]);
    for pair in out.windows(2) {
        assert!(pair[0] >= pair[1]);
    }
}

#[test]
fn fits_radius_knows_what_each_type_divides_by() {
    assert!(fits_radius::<BlurU32>(0));
    assert!(fits_radius::<BlurU32>(4096));
    assert!(fits_radius::<BlurU32>(65534));
    // (65535 + 1)^2 is 2^32: its low 32 bits are zero
    assert!(!fits_radius::<BlurU32>(65535));
    assert!(!fits_radius::<Argb<BlurU32>>(65535));
    assert!(!fits_radius::<BlurU32>(usize::MAX));
    assert!(!fits_radius::<u32xN<4>>(usize::MAX));
    if usize::BITS > 32 {
        assert!(fits_radius::<u32xN<4>>(65535));
        assert!(fits_radius::<Argb<u32xN<4>>>(65535));
        assert!(fits_radius::<BlurU32>(65536));
        assert!(!fits_radius::<u32xN<4>>(u32::MAX as usize));
    }
}

#[test]
fn can_divide_tests_the_count() {
    assert!(BlurU32::can_divide(1));
    assert!(!BlurU32::can_divide(0));
    assert!(u32xN::<2>::can_divide(1));
    assert!(!u32xN::<2>::can_divide(0));
    if usize::BITS > 32 {
        assert!(!BlurU32::can_divide(1usize << 32));
        assert!(u32xN::<2>::can_divide(1usize << 32));
    }
}

#[test]
fn defaults_are_zero() {
    assert_eq!(BlurU32::default(), BlurU32(0));
    assert_eq!(u32xN::<3>::default(), u32xN([0, 0, 0]));
    assert_eq!(Argb::<BlurU32>::default(), Argb::from(0u32));
}

#[test]
fn truncate_count_keeps_the_low_word() {
    assert_eq!(truncate_count(0), 0);
    assert_eq!(truncate_count(77), 77);
    assert_eq!(truncate_count(u32::MAX as usize), u32::MAX);
    if usize::BITS > 32 {
        assert_eq!(truncate_count((1usize << 32) + 5), 5);
    }
}
