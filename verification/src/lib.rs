//! Renders the path of a polar-coordinate sand-drawing table onto a raster
//! canvas: an adaptive discretizer turns each pair of polar points into short
//! pixel-accurate segments, and an antialiased rasterizer paints them as wide
//! strokes. All geometry is carried in fixed-point integers scaled by
//! `fixed::ONE`.

pub mod arc;
pub mod canvas;
pub mod fixed;
pub mod laws;
pub mod pipeline;
pub mod render;
pub mod tr;
pub mod xy;
