//! An in-memory true-colour raster with two line rasterisers, a tone-curve
//! pass and an encoder for the uncompressed TGA layout.
//!
//! Every function carries a contract over the mathematical model of the
//! raster: a sequence of pixels in row-major order, addressed by column and
//! row.
pub mod color;
pub mod header;
pub mod image;
pub mod line;
pub mod raster;
pub mod encode;
pub mod demo;
