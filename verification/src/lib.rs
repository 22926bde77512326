//! Digital signal processing primitives: discrete 1D convolution with
//! selectable output-length mode, cross- and autocorrelation built on it,
//! 2D convolution with zero-fill boundary handling, fixed filter kernels,
//! and zero-padding helpers. Samples are integers; every routine carries a
//! contract that pins its output down exactly.

pub mod convolution;
pub mod filters;
pub mod matrix;
pub mod padding;
pub mod signal;
