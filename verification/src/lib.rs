//! Escape-time rendering of the Mandelbrot set.
//!
//! The crate holds the integer side of a renderer: the walk over the pixel
//! grid, the centring of pixel coordinates, the iteration budget of the
//! escape-time recurrence, the fixed palette and the validation of a render
//! request. The arithmetic on complex numbers is supplied by the caller as
//! plain functions, so every contract here is stated relative to what those
//! functions return.

pub mod color;
pub mod plane;
pub mod escape;
pub mod grid;
pub mod viewport;
pub mod render;
