//! Core of a deep-zoom Mandelbrot renderer.
//!
//! Standard 64-bit floating point runs out of precision after a few dozen
//! orders of magnitude of zoom, so the numeric heart of this crate is a
//! 128-bit signed fixed-point type in Q8.120 format (8 integer bits, 120
//! fraction bits, sign kept separately).  Around it stand the fixed-point
//! phase of the escape-time iteration, the palette interpolation that turns
//! a continuous iteration count into a colour, and the partition of a raster
//! into per-strip jobs for a worker pool.

pub mod escape;
pub mod fixed_point;
pub mod job;
pub mod palette;
pub mod words;
