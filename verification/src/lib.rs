//! Construction of the planar dual graph of a Voronoi tessellation:
//! a region graph (one node per cell, edges between adjacent cells) and a
//! border graph (one node per cell corner, edges along cell walls), with a
//! one-to-one correspondence between region edges and interior border edges.
//!
//! All coordinates are fixed-point: an `i64` counts thousandths of a world
//! unit.  The sampler separates points by at least one coordinate unit; the
//! pipeline seeds its sites on the whole-unit grid, the range the
//! tessellator's numerics are calibrated for, and stores every position in
//! thousandths so centroids keep sub-unit precision.

pub mod geom;
pub mod graph;
pub mod rng;
pub mod sample;
pub mod tess;
pub mod relax;
pub mod dual;
pub mod delaunay;
