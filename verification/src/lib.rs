//! Structural core of a single-lens optical simulator.
//!
//! The numerical pipeline (ray tracing, wavefront estimation, FFT butterflies,
//! coordinate-descent probing) works on floating-point data and lives in the
//! surrounding application layer.  This crate holds the parts whose behaviour
//! is exact and provable: the power-of-two and bit-reversal arithmetic behind
//! the FFT, the data permutations (bit-reversal reordering, quadrant and
//! midline shifts, grid slicing and mirroring), histogram binning of ray hits,
//! and the discrete decisions of the surface classifier and the optimizer.

pub mod bits;
pub mod grid;
pub mod lens;
pub mod optimize;
pub mod profile;
