//! A flocking ("boids") simulation core: a uniform-grid spatial index over
//! moving 2D point entities, and the per-tick steering update that consumes
//! it.
//!
//! All coordinates, radii, speeds and time deltas are fixed-point integers:
//! the caller picks a unit (say, tenths of a pixel) and supplies every
//! quantity in that unit. Steering factors and time deltas are expressed in
//! thousandths (a factor of 50 means 0.05 of the accumulated sum per tick).

pub mod flock;
pub mod geom;
pub mod num;
pub mod voxel;
pub mod world;
