//! Fixed-point 8x8 inverse and forward discrete cosine transforms.
//!
//! A block is 64 numbers in row-major order: samples are `u8`, coefficients
//! are `i32` with index 0 the DC term. Every transform works in exact integer
//! arithmetic: its constants are integers with a fixed number of fractional
//! bits, its accumulators are wide enough for every input, and nothing is
//! rounded before the last stage. So what a transform returns is a closed-form
//! function of its input, and that function is its contract.
//!
//! * [`kernel`] says what a transform computes: for each output a weighted sum
//!   of the 64 inputs, and for an inverse transform the sum divided by the scale
//!   of the kernel, rounded to nearest with a tie away from zero, shifted up by
//!   128 and clamped to `0..=255`.
//! * [`idct`] holds the inverse transforms: the defining formula, the matrix
//!   methods that take the same sum apart in different ways, and the three fast
//!   transforms built on butterfly networks. [`fdct`] holds the forward
//!   transforms, whose coefficients come out scaled by a power of two.
//! * [`basis`] is the cosine basis at three precisions; [`butterfly`] is what the
//!   butterfly networks of [`llm`], [`llm_forward`], [`aan`], [`aan_double`] and
//!   [`ap922`] compute, as matrices; [`passes`] applies a network along the rows
//!   and columns of a block; [`fixed`] is the last stage.
//! * [`laws`] and [`roundtrip`] state what holds of the transforms together:
//!   a block with only a DC term comes out flat, sums out of range saturate, the
//!   fast transforms stay within one of the reference, the two forward
//!   transforms agree, and a block taken forward and back comes out within
//!   three of what went in.
pub mod aan;
pub mod aan_double;
pub mod ap922;
pub mod basis;
pub mod butterfly;
pub mod closeness;
pub mod fdct;
pub mod fixed;
pub mod idct;
pub mod kernel;
pub mod laws;
pub mod linear;
pub mod llm;
pub mod llm_forward;
pub mod passes;
pub mod roundtrip;
pub mod separable;
pub mod text;
