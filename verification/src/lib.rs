//! Renders raster images as Unicode Braille patterns sized for a terminal.
//!
//! The pipeline fits the picture to the terminal's sub-cell grid, reduces it
//! to luminance, picks a global threshold with Otsu's method and packs each
//! 2x4 block of binary samples into one Braille glyph.

pub mod braille;
pub mod geometry;
pub mod imaging;
pub mod otsu;
pub mod pipeline;
pub mod raster;
