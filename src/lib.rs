//! Conversion of a true-color RGB raster into a sixteen-color indexed image:
//! a palette of packed 15-bit color codes and one palette index per pixel.
pub mod img;
pub mod palette;
pub mod raster;
