//! A 2D ray-casting renderer core in fixed-point arithmetic.
//!
//! The world is a grid of axis-aligned unit cubes; one ray is cast per
//! screen column and the distance to the nearest cube becomes the height
//! of a vertical strip. All coordinates and angles are fixed-point
//! numbers: an `i64` holding the value scaled by `geometry::SCALE`.
//!
//! The platform layer around this crate owns the window, the key events
//! and the frame pacing; it feeds commands to a `camera::Camera` and
//! paints the strips that `render::render` returns.

pub mod camera;
pub mod geometry;
pub mod intersect;
pub mod isqrt;
pub mod render;
