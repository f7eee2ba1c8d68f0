//! Pixel grid, colors and the discrete decisions of a backward ray tracer.
//!
//! The geometry itself works on floating-point values and stays with the
//! program that drives this library; what is decided on integers, flags and
//! indices is stated and proved here.
pub mod geom;
pub mod tracer;
