//! A small ray tracer over fixed-point arithmetic.
//!
//! A picture is drawn by following, for each of its positions, a ray from the
//! eye into a scene of spheres, planes and rectangles: the nearest shape that
//! the ray meets is lit by the lights that no other shape hides, and what the
//! mirrored and the bent ray bring back is mixed in, up to a fixed number of
//! bounces.
//!
//! Numbers are [`fixed::Fixed`]: integers that count units of `2^-32`. Every
//! operation on them is total and rounds down, so that each function of the
//! crate has one result, which its contract states. [`geometry`] proves what
//! the rounding leaves of the geometry: that normalized vectors have nearly
//! unit length, and that the points where rays meet spheres lie on the
//! spheres, to within a stated number of units of the last place.

pub mod blocks;
pub mod camera;
pub mod canvas;
pub mod fixed;
pub mod geometry;
pub mod scene;
pub mod tracer;
pub mod voxel;
