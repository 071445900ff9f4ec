//! Escape-time rendering of the Mandelbrot set in fixed-point arithmetic.
//!
//! Coordinates in the complex plane are `i32` fixed-point numbers with
//! [`escape::FRAC_BITS`] fractional bits, so every pixel value is a pure and
//! exactly reproducible function of the render configuration.
pub mod config;
pub mod coords;
pub mod escape;
pub mod palette;
pub mod partition;
pub mod plot;
