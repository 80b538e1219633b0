//! A verified pixel-buffer processing engine: composable filters that read one
//! image buffer and write a transformed buffer (blur, sharpening, edge
//! detection, dithering, posterization, edge-preserving smoothing).

pub mod blur;
pub mod color;
pub mod convolve;
pub mod dither;
pub mod edges;
pub mod image;
pub mod kuwahara;
pub mod laws;
pub mod math;
pub mod pixel_traits;
pub mod pointwise;

pub use color::Color;
pub use image::Image;
