//! RGBM image codec: packs high-dynamic-range radiance into 8-bit RGBA-shaped
//! rasters by storing a per-pixel brightness multiplier in the alpha channel.
//!
//! Radiance and RGBM values are held in exact fixed-point and rational form,
//! so every arithmetic step of the codec is stated and proved exactly.

pub mod cli;
pub mod encode;
