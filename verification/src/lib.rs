//! Averaging of radio-interferometer visibilities over blocks of time and
//! frequency.
//!
//! Every number is carried as the bit pattern of an IEEE 754 value: `Single`
//! for the stored precision, `Double` for the precision in which sums are
//! accumulated. The library itself reads no more of a number than the sign of a
//! weight. Sums, products and quotients are taken through an [`Arithmetic`]
//! that the caller hands in, and every contract is stated over a [`Model`] of
//! that arithmetic.
//!
//! [`Arithmetic`]: arithmetic::Arithmetic
//! [`Model`]: arithmetic::Model

pub mod arithmetic;
pub mod averaging;
pub mod chunk;
pub mod cube;
pub mod jones;
pub mod text;

pub use arithmetic::{Arithmetic, Double, Model, Single};
pub use jones::{Complex, Jones};
