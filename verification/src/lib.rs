//! Interactive inspection of very large 1-D sample captures.
//!
//! The library holds the verified core of a signal viewer: a multi-resolution
//! min/max decimation pyramid, the level-of-detail and viewport/zoom state
//! machine, and the index-level plan of a Welch power-spectral-density
//! estimate (segmentation, frequency axis, fftshift).
//!
//! Sample values are IEEE-754 bit patterns carried as plain integers: a real
//! sample is the `u32` returned by `f32::to_bits`, and the library orders such
//! encodings by the sign-magnitude key, which on values that are not NaN
//! agrees with the numeric order of the floats (`f32::total_cmp`). All
//! floating-point arithmetic proper (FFT, windowing, logarithms) lives with
//! the caller.
pub mod codec;
pub mod fft;
pub mod sample;
pub mod series;
pub mod signal_plot;
pub mod utils;
