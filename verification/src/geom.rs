//! Plane coordinates and the error taxonomy shared by the whole pipeline.

use vstd::prelude::*;

verus! {

/// Coordinate units per whole world unit: positions are stored in
/// thousandths of a world unit, while the tessellator is driven on whole
/// world units, the range its numerics are calibrated for.
pub const WORLD_UNIT: i64 = 1000;

/// Largest coordinate value the pipeline accepts.  Keeping every coordinate
/// in `[0, MAX_COORD]` lets a ring of up to `MAX_RING` vertices be summed in
/// an `i64` without overflow.
pub const MAX_COORD: i64 = 0x7fff_ffff;

/// Largest number of vertices a single polygon may have.
pub const MAX_RING: usize = 0x4000_0000;

/// A point of the plane in fixed-point coordinates (thousandths of a world
/// unit).
#[derive(Clone, Copy, Debug, PartialEq, Eq, Structural)]
pub struct Pos {
    pub x: i64,
    pub y: i64,
}

/// Why the pipeline stopped instead of producing a pair of graphs.
#[derive(Clone, Copy, Debug, PartialEq, Eq, Structural)]
pub enum GenError {
    /// The domain is empty (a non-positive side) while points were requested,
    /// or relaxation was requested without any points.
    InvalidDomain,
    /// The sampler could not find a fresh distinct point within its retry
    /// budget.
    PointSetExhausted,
    /// The tessellator returned polygons the pipeline cannot accept
    /// (an empty ring, an out-of-range coordinate, or an oversized ring).
    TessellationFailed,
    /// The border edges produced by the face walk violate the dual-graph
    /// invariants (a wall touched by more than two cells, or two cells that
    /// share more than one wall).
    InvariantViolation,
}

/// A coordinate that the pipeline may feed to the tessellator.
pub open spec fn coord_ok(c: i64) -> bool {
    0 <= c <= MAX_COORD
}

/// A point whose two coordinates are both in range.
pub open spec fn pos_ok(p: Pos) -> bool {
    coord_ok(p.x) && coord_ok(p.y)
}

} // verus!
