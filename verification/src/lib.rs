//! An escape-time fractal renderer over the complex plane: a viewport is
//! mapped onto a pixel grid, every pixel's escape-time iteration count is
//! computed in parallel, and a coloring strategy turns the result matrix
//! into an RGB matrix. Coordinates are exact fixed-point integers, so every
//! step of the computation carries a proved contract.

pub mod coloring;
pub mod config;
pub mod fixed;
pub mod mandlebrot;
