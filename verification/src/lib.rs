//! A marching-squares contour tracer: turns a rectangular binary pixel mask
//! into the vertex/edge graph of the outline separating filled from empty
//! regions.
//!
//! The engine works in three phases over one shared grid buffer: a first pass
//! rasterises the pixel mask into per-grid-point quadrant flags, a second pass
//! classifies each grid point as empty, a simple crossing, or a saddle, and
//! three read-only traversals extract the vertex coordinates and the
//! horizontal and vertical edge index pairs.

pub mod algorithm;
pub mod grid;
pub mod laws;
pub mod texture;
