//! A raster painting engine on integer arithmetic: brush stamps, strokes
//! between two cursor positions, and alpha compositing of layers.
//!
//! Fractions are fixed-point numbers. A radius counts 1/256 of a pixel, a
//! spacing counts 1/256 of the radius, and hardness, opacity and colour
//! channels are bytes that stand for `k / 255`.

pub mod math;
pub mod blend;
pub mod stamp;
pub mod brush;
pub mod operations;
pub mod canvas;
pub mod input;

pub use crate::brush::{Brush, BrushBaseSettings, BrushError};
pub use crate::canvas::Canvas;
pub use crate::stamp::{soft_circle, Pixel, Stamp};
