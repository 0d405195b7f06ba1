//! Infers a scalar value for every pixel of an image from a vertical colour
//! legend, and renders that value as the opacity of a fixed tint.
pub mod alpha;
pub mod color;
pub mod raster;
pub mod calibration;
pub mod laws;
pub mod classify;
pub mod transform;
pub mod codec;
