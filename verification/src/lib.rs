//! Verified core of a command-line ray tracer: argument parsing, render
//! planning and PPM encoding.

pub mod decimal;

pub mod args;
pub mod scenes;
pub mod cli;
pub mod ppm;
pub mod raster;
