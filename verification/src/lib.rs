//! Image dithering and colour quantisation over an RGB pixel grid.
//!
//! All arithmetic is exact: luminance is carried in ten-thousandths, colour
//! distances as squared integers, and diffusion weights as fractions.

pub mod color;
pub mod bayer;
pub mod palette;
pub mod kernel;
pub mod buffer;
pub mod random;
pub mod engine;
pub mod diffusion;
