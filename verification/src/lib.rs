//! A two-dimensional shadow scene: a movable light, a circular occluder that
//! bounces between the top and the bottom of the frame, and the shading of
//! every pixel by whether the occluder hides it from the light.
//!
//! All positions and lengths are whole numbers of units, a fixed number of
//! which make one pixel, so that every decision is exact.
//!
//! - [`geometry`]: distances and the shadow test, with its laws.
//! - [`config`]: the parameters of a scene.
//! - [`scene`]: the state and its change from tick to tick.
//! - [`render`]: the shade of each pixel and the filling of a frame buffer.

pub mod config;
pub mod geometry;
pub mod render;
pub mod scene;
