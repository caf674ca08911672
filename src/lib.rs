//! A point-cloud rasterizer kernel: the pixel-space part of projecting colored
//! points onto a screen and compositing them with a per-pixel depth test.
//!
//! Camera geometry works on real numbers and is left to the caller; this crate
//! takes over once a point has a depth and a normalized screen position.

pub mod camera;
pub mod image_ops;
pub mod render;
pub mod screen;
