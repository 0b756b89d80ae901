//! A fast, iterative Stackblur that gives a smooth, high-quality blur with
//! no edge bleeding.
//!
//! Stackblur approximates a Gaussian blur by a triangular moving average:
//! every output element is a weighted average of the inputs around it, and an
//! input counts the more the closer it lies. The sum is kept up to date as
//! the window slides, so that each element costs the same whatever the
//! radius. Beyond the ends of the input the first and the last element are
//! repeated, so that the average at the edge is not diluted. The engine keeps
//! `radius * 2 + 2` elements of state.
//!
//! ## Modules
//!
//! - [`traits`] holds [`traits::StackBlurrable`], the arithmetic that a value
//!   must offer to be blurred, with the laws that the proofs rest on.
//! - [`color`] holds the accumulators [`color::BlurU32`] and
//!   [`color::u32xN`], and [`color::Argb`], which blurs the four channels of
//!   packed colours side by side.
//! - [`window`] defines the blurred sequence, and [`iter`] holds the engine
//!   that produces it in one pass.
//! - [`frame`] and [`lanes`] blur the rows and then the columns of a strided
//!   pixel buffer, line by line or several lines at once.
//! - [`exact`] and [`parity`] say what the drivers compute when the
//!   conversions are functions, and why several lines at once give what one
//!   line at a time gives.
//! - [`image`] blurs `imgref` images of packed colours.
//! - [`laws`] and [`values`] state what holds of every blur: the identity at
//!   radius zero, the absence of edge bleeding, and the ramp that a step
//!   becomes.

pub mod arrays;
pub mod color;
pub mod exact;
pub mod frame;
pub mod image;
pub mod iter;
pub mod lanes;
pub mod laws;
pub mod parity;
pub mod traits;
pub mod values;
pub mod window;

pub use frame::blur;
pub use image::{blur_argb, simd_blur_argb};
pub use lanes::simd_blur;
