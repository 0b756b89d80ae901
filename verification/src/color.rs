//! Accumulator types, and the adapter between packed colours and them.
//!
//! A packed colour is a 32-bit integer `0xAARRGGBB`. [`Argb`] holds its four
//! channels side by side, each in an accumulator of its own, so that a whole
//! pixel, or a whole group of pixels, can be blurred as one value.

mod serial;
mod simd;

pub use serial::BlurU32;
pub use serial::{low_word, truncate_count, wrap_u32};
pub use simd::u32xN;

use crate::arrays::{lanes_from, lemma_lanes_from};
use crate::traits::StackBlurrable;
use vstd::prelude::*;
use vstd::std_specs::convert::FromSpecImpl;

verus! {

/// The four channels of a colour: alpha, red, green and blue, in the order in
/// which a packed colour holds them from its highest byte down.
#[derive(Copy, Clone, Eq, PartialEq, Debug)]
pub struct Argb<T: StackBlurrable> {
    pub alpha: T,
    pub red: T,
    pub green: T,
    pub blue: T,
}

/// The alpha channel of a packed colour: its highest byte.
pub open spec fn alpha_of(pixel: u32) -> u32 {
    pixel >> 24
}

/// The red channel of a packed colour: its second byte.
pub open spec fn red_of(pixel: u32) -> u32 {
    (pixel >> 16) & 0xff
}

/// The green channel of a packed colour: its third byte.
pub open spec fn green_of(pixel: u32) -> u32 {
    (pixel >> 8) & 0xff
}

/// The blue channel of a packed colour: its lowest byte.
pub open spec fn blue_of(pixel: u32) -> u32 {
    pixel & 0xff
}

/// The packed colour made of the low eight bits of each channel.
pub open spec fn packed(alpha: u32, red: u32, green: u32, blue: u32) -> u32 {
    (alpha & 0xff) << 24 | (red & 0xff) << 16 | (green & 0xff) << 8 | (blue & 0xff)
}

/// The four channels of a packed colour, each in an accumulator of its own.
pub open spec fn unpacked(argb: u32) -> Argb<BlurU32> {
    Argb {
        alpha: BlurU32(alpha_of(argb)),
        red: BlurU32(red_of(argb)),
        green: BlurU32(green_of(argb)),
        blue: BlurU32(blue_of(argb)),
    }
}

/// The packed colour made of the low eight bits of each channel accumulator.
pub open spec fn repacked(channels: Argb<BlurU32>) -> u32 {
    packed(channels.alpha.0, channels.red.0, channels.green.0, channels.blue.0)
}

/// The channels of `N` packed colours: lane `i` of each channel comes from
/// colour `i`.
pub open spec fn unpacked_lanes<const N: usize>(values: [u32; N]) -> Argb<u32xN<N>> {
    Argb {
        alpha: u32xN(lanes_from(|j: int| alpha_of(values[j]))),
        red: u32xN(lanes_from(|j: int| red_of(values[j]))),
        green: u32xN(lanes_from(|j: int| green_of(values[j]))),
        blue: u32xN(lanes_from(|j: int| blue_of(values[j]))),
    }
}

/// The `N` packed colours made of the lanes of four channels: colour `i` is
/// packed from lane `i` of each.
pub open spec fn repacked_lanes<const N: usize>(channels: Argb<u32xN<N>>) -> [u32; N] {
    lanes_from(
        |j: int|
            packed(
                channels.alpha.0[j],
                channels.red.0[j],
                channels.green.0[j],
                channels.blue.0[j],
            ),
    )
}

/// Packs the low eight bits of four channels into one colour.
pub fn pack(alpha: u32, red: u32, green: u32, blue: u32) -> (pixel: u32)
    ensures
        pixel == packed(alpha, red, green, blue),
{
    (alpha & 0xff) << 24 | (red & 0xff) << 16 | (green & 0xff) << 8 | (blue & 0xff)
}

impl From<u32> for Argb<BlurU32> {
    /// Splits a packed colour into its four channels.
    fn from(argb: u32) -> (channels: Self) {
        Argb {
            alpha: BlurU32(argb >> 24),
            red: BlurU32((argb >> 16) & 0xff),
            green: BlurU32((argb >> 8) & 0xff),
            blue: BlurU32(argb & 0xff),
        }
    }
}

impl FromSpecImpl<u32> for Argb<BlurU32> {
    open spec fn obeys_from_spec() -> bool {
        true
    }

    open spec fn from_spec(argb: u32) -> Self {
        unpacked(argb)
    }
}

impl From<Argb<BlurU32>> for u32 {
    /// Cuts each channel down to its low eight bits and packs the four bytes.
    fn from(channels: Argb<BlurU32>) -> (argb: Self) {
        pack(channels.alpha.0, channels.red.0, channels.green.0, channels.blue.0)
    }
}

impl FromSpecImpl<Argb<BlurU32>> for u32 {
    open spec fn obeys_from_spec() -> bool {
        true
    }

    open spec fn from_spec(channels: Argb<BlurU32>) -> Self {
        repacked(channels)
    }
}

impl<const N: usize> From<[u32; N]> for Argb<u32xN<N>> {
    /// Splits `N` packed colours into four lane-packed channels: lane `i` of
    /// each channel comes from colour `i`.
    fn from(values: [u32; N]) -> (channels: Self) {
        let mut alpha = values;
        let mut red = values;
        let mut green = values;
        let mut blue = values;
        let mut i: usize = 0;
        while i < N
            invariant
                i <= N,
                forall|j: int| 0 <= j < i ==> #[trigger] alpha[j] == alpha_of(values[j]),
                forall|j: int| 0 <= j < i ==> #[trigger] red[j] == red_of(values[j]),
                forall|j: int| 0 <= j < i ==> #[trigger] green[j] == green_of(values[j]),
                forall|j: int| 0 <= j < i ==> #[trigger] blue[j] == blue_of(values[j]),
            decreases N - i,
        {
            let value = values[i];
            alpha[i] = value >> 24;
            red[i] = (value >> 16) & 0xff;
            green[i] = (value >> 8) & 0xff;
            blue[i] = value & 0xff;
            i += 1;
        }
        proof {
            let spec = unpacked_lanes(values);
            lemma_lanes_from::<u32, N>(|j: int| alpha_of(values[j]));
            lemma_lanes_from::<u32, N>(|j: int| red_of(values[j]));
            lemma_lanes_from::<u32, N>(|j: int| green_of(values[j]));
            lemma_lanes_from::<u32, N>(|j: int| blue_of(values[j]));
            assert(alpha =~= spec.alpha.0);
            assert(red =~= spec.red.0);
            assert(green =~= spec.green.0);
            assert(blue =~= spec.blue.0);
        }
        Argb { alpha: u32xN(alpha), red: u32xN(red), green: u32xN(green), blue: u32xN(blue) }
    }
}

impl<const N: usize> FromSpecImpl<[u32; N]> for Argb<u32xN<N>> {
    open spec fn obeys_from_spec() -> bool {
        true
    }

    open spec fn from_spec(values: [u32; N]) -> Self {
        unpacked_lanes(values)
    }
}

impl<const N: usize> From<Argb<u32xN<N>>> for [u32; N] {
    /// Packs lane `i` of the four channels into colour `i`, cutting each
    /// channel down to its low eight bits.
    fn from(channels: Argb<u32xN<N>>) -> (values: Self) {
        let mut values = channels.alpha.0;
        let mut i: usize = 0;
        while i < N
            invariant
                i <= N,
                forall|j: int|
                    0 <= j < i ==> #[trigger] values[j] == packed(
                        channels.alpha.0[j],
                        channels.red.0[j],
                        channels.green.0[j],
                        channels.blue.0[j],
                    ),
            decreases N - i,
        {
            values[i] = pack(
                channels.alpha.0[i],
                channels.red.0[i],
                channels.green.0[i],
                channels.blue.0[i],
            );
            i += 1;
        }
        proof {
            lemma_lanes_from::<u32, N>(
                |j: int|
                    packed(
                        channels.alpha.0[j],
                        channels.red.0[j],
                        channels.green.0[j],
                        channels.blue.0[j],
                    ),
            );
            assert(values =~= repacked_lanes(channels));
        }
        values
    }
}

impl<const N: usize> FromSpecImpl<Argb<u32xN<N>>> for [u32; N] {
    open spec fn obeys_from_spec() -> bool {
        true
    }

    open spec fn from_spec(channels: Argb<u32xN<N>>) -> Self {
        repacked_lanes(channels)
    }
}

impl<T: StackBlurrable> Default for Argb<T> {
    /// The colour whose channels all hold the neutral element.
    fn default() -> (value: Self)
        ensures
            value == Self::zero_value(),
    {
        Self::zero()
    }
}

impl<T: StackBlurrable> Argb<T> {
    /// Subtracts channel by channel.
    pub fn sub(self, rhs: Self) -> (difference: Self)
        ensures
            difference == self.minus(rhs),
    {
        let mut difference = self;
        difference.sub_assign(rhs);
        difference
    }
}

/// Channel by channel, the arithmetic of `T`: a colour is blurred as one
/// value, and no channel reaches into another.
impl<T: StackBlurrable> StackBlurrable for Argb<T> {
    open spec fn zero_value() -> Self {
        Argb {
            alpha: T::zero_value(),
            red: T::zero_value(),
            green: T::zero_value(),
            blue: T::zero_value(),
        }
    }

    open spec fn plus(self, rhs: Self) -> Self {
        Argb {
            alpha: self.alpha.plus(rhs.alpha),
            red: self.red.plus(rhs.red),
            green: self.green.plus(rhs.green),
            blue: self.blue.plus(rhs.blue),
        }
    }

    open spec fn minus(self, rhs: Self) -> Self {
        Argb {
            alpha: self.alpha.minus(rhs.alpha),
            red: self.red.minus(rhs.red),
            green: self.green.minus(rhs.green),
            blue: self.blue.minus(rhs.blue),
        }
    }

    open spec fn times(self, count: nat) -> Self {
        Argb {
            alpha: self.alpha.times(count),
            red: self.red.times(count),
            green: self.green.times(count),
            blue: self.blue.times(count),
        }
    }

    open spec fn over(self, count: usize) -> Self {
        Argb {
            alpha: self.alpha.over(count),
            red: self.red.over(count),
            green: self.green.over(count),
            blue: self.blue.over(count),
        }
    }

    open spec fn can_divide_by(count: usize) -> bool {
        T::can_divide_by(count)
    }

    fn zero() -> (z: Self) {
        Argb { alpha: T::zero(), red: T::zero(), green: T::zero(), blue: T::zero() }
    }

    fn add(self, rhs: Self) -> (sum: Self) {
        let mut sum = self;
        sum.add_assign(rhs);
        sum
    }

    fn add_assign(&mut self, rhs: Self) {
        self.alpha.add_assign(rhs.alpha);
        self.red.add_assign(rhs.red);
        self.green.add_assign(rhs.green);
        self.blue.add_assign(rhs.blue);
    }

    fn sub_assign(&mut self, rhs: Self) {
        self.alpha.sub_assign(rhs.alpha);
        self.red.sub_assign(rhs.red);
        self.green.sub_assign(rhs.green);
        self.blue.sub_assign(rhs.blue);
    }

    fn mul(self, rhs: usize) -> (product: Self) {
        Argb {
            alpha: self.alpha.mul(rhs),
            red: self.red.mul(rhs),
            green: self.green.mul(rhs),
            blue: self.blue.mul(rhs),
        }
    }

    fn can_divide(count: usize) -> (can: bool) {
        T::can_divide(count)
    }

    fn div(self, rhs: usize) -> (quotient: Self) {
        Argb {
            alpha: self.alpha.div(rhs),
            red: self.red.div(rhs),
            green: self.green.div(rhs),
            blue: self.blue.div(rhs),
        }
    }

    proof fn lemma_plus_commutes(a: Self, b: Self) {
        T::lemma_plus_commutes(a.alpha, b.alpha);
        T::lemma_plus_commutes(a.red, b.red);
        T::lemma_plus_commutes(a.green, b.green);
        T::lemma_plus_commutes(a.blue, b.blue);
    }

    proof fn lemma_plus_associates(a: Self, b: Self, c: Self) {
        T::lemma_plus_associates(a.alpha, b.alpha, c.alpha);
        T::lemma_plus_associates(a.red, b.red, c.red);
        T::lemma_plus_associates(a.green, b.green, c.green);
        T::lemma_plus_associates(a.blue, b.blue, c.blue);
    }

    proof fn lemma_plus_zero(a: Self) {
        T::lemma_plus_zero(a.alpha);
        T::lemma_plus_zero(a.red);
        T::lemma_plus_zero(a.green);
        T::lemma_plus_zero(a.blue);
    }

    proof fn lemma_minus_undoes_plus(a: Self, b: Self) {
        T::lemma_minus_undoes_plus(a.alpha, b.alpha);
        T::lemma_minus_undoes_plus(a.red, b.red);
        T::lemma_minus_undoes_plus(a.green, b.green);
        T::lemma_minus_undoes_plus(a.blue, b.blue);
    }

    proof fn lemma_times_unfolds(a: Self, count: nat) {
        T::lemma_times_unfolds(a.alpha, count);
        T::lemma_times_unfolds(a.red, count);
        T::lemma_times_unfolds(a.green, count);
        T::lemma_times_unfolds(a.blue, count);
    }

    proof fn lemma_over_one(a: Self) {
        T::lemma_over_one(a.alpha);
        T::lemma_over_one(a.red);
        T::lemma_over_one(a.green);
        T::lemma_over_one(a.blue);
    }
}

} // verus!
