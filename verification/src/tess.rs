//! The tessellation boundary.  The Voronoi diagram itself is computed by the
//! `voronoi` crate; the library consumes it as a list of polygons, one per
//! bounded cell, each a ring of vertices in walk order.  Everything after
//! that call is verified, so the diagram is validated at run time before any
//! further use.

use vstd::prelude::*;
use crate::geom::{Pos, pos_ok, MAX_COORD, MAX_RING};

verus! {

/// The polygon list of the Voronoi diagram of `points` clipped to the box
/// `[0, box_size] x [0, box_size]`.  The tessellation is a pure function of
/// its inputs, so the result carries a name: two calls on equal inputs
/// return equal polygon lists.
pub uninterp spec fn voronoi_polys_of(points: Seq<Pos>, box_size: int) -> Seq<Seq<Pos>>;

/// The mathematical view of a polygon list: one coordinate sequence per
/// polygon.
pub open spec fn polys_seq(polys: Vec<Vec<Pos>>) -> Seq<Seq<Pos>> {
    polys@.map_values(|p: Vec<Pos>| p@)
}

/// A single polygon the pipeline accepts: a nonempty ring of bounded length
/// whose vertices all lie in `[0, MAX_COORD]` on both axes.
pub open spec fn poly_ok(p: Seq<Pos>) -> bool {
    &&& 1 <= p.len() <= MAX_RING
    &&& forall|j: int| 0 <= j < p.len() ==> pos_ok(#[trigger] p[j])
}

/// A polygon list the pipeline accepts.
pub open spec fn wf_polys(ps: Seq<Seq<Pos>>) -> bool {
    forall|i: int| 0 <= i < ps.len() ==> poly_ok(#[trigger] ps[i])
}

/// Relies on `voronoi::voronoi` for the diagram and `voronoi::make_polygons`
/// for its bounded cells' vertex rings; both compute from their arguments
/// alone (sites feed a y-keyed event queue, its one hash set is only ever
/// probed, and the polygon sort is stable), so the result equals
/// `voronoi_polys_of` on them.  The precondition excludes what the crate
/// cannot take: an empty site list walks an empty beachline and panics, and
/// coincident sites degenerate its beachline surgery.  Site order is not
/// required — the crate's own relaxation feeds it unsorted centroid lists.
/// Coordinates pass through unchanged (they are in range by the
/// precondition) and the returned vertices are truncated back to whole
/// units.
#[verifier::external_body]
fn tessellate_raw(points: &Vec<Pos>, box_size: i64) -> (r: Vec<Vec<Pos>>)
    requires
        forall|i: int| 0 <= i < points@.len() ==> pos_ok(#[trigger] points@[i]),
        points@.len() > 0,
        points@.no_duplicates(),
        0 < box_size <= MAX_COORD,
    ensures
        polys_seq(r) == voronoi_polys_of(points@, box_size as int),
{
    let pts: Vec<voronoi::Point> = points.iter().map(
        |p| voronoi::Point::new((p.x as i32).into(), (p.y as i32).into()),
    ).collect();
    let diagram = voronoi::voronoi(pts, (box_size as i32).into());
    voronoi::make_polygons(&diagram).iter().map(
        |poly|
            poly.iter().map(
                |q| Pos { x: q.x.into_inner() as i64, y: q.y.into_inner() as i64 },
            ).collect(),
    ).collect()
}

/// Checks that every returned polygon is one the pipeline accepts.
pub fn validate_polys(polys: &Vec<Vec<Pos>>) -> (r: bool)
    ensures
        r == wf_polys(polys_seq(*polys)),
{
    let mut i: usize = 0;
    while i < polys.len()
        invariant
            i <= polys@.len(),
            forall|k: int| 0 <= k < i ==> poly_ok(#[trigger] polys_seq(*polys)[k]),
        decreases polys@.len() - i,
    {
        let p = &polys[i];
        proof {
            assert(polys_seq(*polys)[i as int] == p@);
        }
        if p.len() == 0 || p.len() > MAX_RING {
            proof {
                assert(!poly_ok(polys_seq(*polys)[i as int]));
            }
            return false;
        }
        let mut j: usize = 0;
        while j < p.len()
            invariant
                j <= p@.len(),
                0 <= i < polys@.len(),
                p@ == polys_seq(*polys)[i as int],
                forall|k: int| 0 <= k < j ==> pos_ok(#[trigger] p@[k]),
            decreases p@.len() - j,
        {
            let q = p[j];
            if q.x < 0 || q.x > MAX_COORD || q.y < 0 || q.y > MAX_COORD {
                proof {
                    assert(!pos_ok(p@[j as int]));
                    assert(!poly_ok(polys_seq(*polys)[i as int]));
                }
                return false;
            }
            j = j + 1;
        }
        i = i + 1;
    }
    true
}

/// Tessellates and validates in one step: the polygon list of
/// [`voronoi_polys_of`] when the pipeline accepts it, `None` otherwise.
pub fn tessellate(points: &Vec<Pos>, box_size: i64) -> (r: Option<Vec<Vec<Pos>>>)
    requires
        forall|i: int| 0 <= i < points@.len() ==> pos_ok(#[trigger] points@[i]),
        points@.len() > 0,
        points@.no_duplicates(),
        0 < box_size <= MAX_COORD,
    ensures
        match r {
            Some(polys) => polys_seq(polys) == voronoi_polys_of(points@, box_size as int)
                && wf_polys(polys_seq(polys)),
            None => !wf_polys(voronoi_polys_of(points@, box_size as int)),
        },
{
    let polys = tessellate_raw(points, box_size);
    if validate_polys(&polys) {
        Some(polys)
    } else {
        None
    }
}

} // verus!
