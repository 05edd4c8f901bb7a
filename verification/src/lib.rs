//! The decision core of a Monte-Carlo path tracer.
//!
//! Every quantity that the tracer measures is a binary64 number, and this
//! crate holds each one by its bit pattern. What it decides from them is
//! exact: which of two numbers is smaller, which root of a sphere's quadratic
//! lies in the window, which surface is nearest, whether a ray is scattered or
//! absorbed, where a pixel's bytes go. The arithmetic that produces the numbers
//! is the caller's.

pub mod camera;
pub mod geometry;
pub mod material;
pub mod scalar;

pub use scalar::Scalar;
