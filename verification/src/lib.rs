//! A small ray-tracing library over fixed-point arithmetic.
//!
//! Geometry, colors and camera work are carried out on scaled 64-bit
//! integers (see [`fx::SCALE`]); the linear solver used for triangle
//! containment works on exact rationals.  Rendering is resumable: an
//! image buffer holds a sentinel value in the pixels that still have
//! to be computed, and the scheduler skips every pixel that has
//! already been finished.

pub mod fx;
pub mod camera;
pub mod object;
pub mod parse;
pub mod ray;
pub mod render;
pub mod rng;
pub mod scene;
pub mod solver;
pub mod vec3;
