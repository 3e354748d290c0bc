//! The Delaunay-based diagnostic path: triangulate the seed points, walk
//! the triangles around each site to collect its Voronoi polygon (triangle
//! centroids are the polygon's vertices), and relax by moving each site to
//! its polygon's centroid.  Sites whose polygon reaches the convex hull are
//! skipped, recognizable by an `EMPTY` twin while walking.  This path is
//! for rendering and diagnostics; the dual-graph pipeline uses the
//! tessellator in `relax` instead.

use vstd::prelude::*;
use crate::geom::{GenError, Pos, pos_ok, MAX_COORD, MAX_RING, WORLD_UNIT};
use crate::rng::RandomSource;
use crate::sample::{gen_points, sample_ok};
use crate::relax::{ring_sum_x, ring_sum_y, world_of};

verus! {

/// A Delaunay triangulation as plain index lists: each triple of `triangles`
/// names the corners of one triangle; `halfedges[i]` is the twin of halfedge
/// `i` (`usize::MAX` on the hull); `hull` lists the convex-hull points.
pub struct Triangulation {
    pub triangles: Vec<usize>,
    pub halfedges: Vec<usize>,
    pub hull: Vec<usize>,
}

/// The triangulation of a point set.  It is a pure function of the points,
/// so two calls on equal inputs agree.
pub uninterp spec fn delaunay_of(points: Seq<Pos>) -> (Seq<usize>, Seq<usize>, Seq<usize>);

/// Relies on `delaunator::triangulate`: a deterministic function of the
/// points alone.  Coordinates are in range by the precondition and pass
/// through unchanged; the index lists are copied as they are, including the
/// `EMPTY` marker (`usize::MAX`) on hull halfedges.
#[verifier::external_body]
fn triangulate_raw(points: &Vec<Pos>) -> (t: Triangulation)
    requires
        forall|i: int| 0 <= i < points@.len() ==> pos_ok(#[trigger] points@[i]),
    ensures
        (t.triangles@, t.halfedges@, t.hull@) == delaunay_of(points@),
{
    let pts: Vec<delaunator::Point> = points.iter().map(
        |p| delaunator::Point { x: (p.x as i32).into(), y: (p.y as i32).into() },
    ).collect();
    let t = delaunator::triangulate(&pts);
    Triangulation { triangles: t.triangles, halfedges: t.halfedges, hull: t.hull }
}

/// A triangulation the walk can consume safely.
pub open spec fn tri_wf(t: Triangulation, npoints: int) -> bool {
    &&& t.triangles@.len() == t.halfedges@.len()
    &&& t.triangles@.len() % 3 == 0
    &&& t.triangles@.len() <= MAX_RING
    &&& forall|i: int| 0 <= i < t.triangles@.len() ==> (#[trigger] t.triangles@[i]) < npoints
    &&& forall|i: int|
        0 <= i < t.halfedges@.len() ==> (#[trigger] t.halfedges@[i]) == usize::MAX || t.halfedges@[i]
            < t.triangles@.len()
    &&& forall|i: int| 0 <= i < t.hull@.len() ==> (#[trigger] t.hull@[i]) < npoints
}

fn validate_triangulation(t: &Triangulation, npoints: usize) -> (r: bool)
    ensures
        r == tri_wf(*t, npoints as int),
{
    let n = t.triangles.len();
    if t.halfedges.len() != n || n % 3 != 0 || n > MAX_RING {
        return false;
    }
    let mut i: usize = 0;
    while i < n
        invariant
            i <= n,
            n == t.triangles@.len(),
            n == t.halfedges@.len(),
            forall|j: int| 0 <= j < i ==> (#[trigger] t.triangles@[j]) < npoints,
            forall|j: int|
                0 <= j < i ==> (#[trigger] t.halfedges@[j]) == usize::MAX || t.halfedges@[j] < n,
        decreases n - i,
    {
        if t.triangles[i] >= npoints {
            return false;
        }
        let h = t.halfedges[i];
        if h != usize::MAX && h >= n {
            return false;
        }
        i = i + 1;
    }
    let mut i: usize = 0;
    while i < t.hull.len()
        invariant
            i <= t.hull@.len(),
            forall|j: int| 0 <= j < i ==> (#[trigger] t.hull@[j]) < npoints,
        decreases t.hull@.len() - i,
    {
        if t.hull[i] >= npoints {
            return false;
        }
        i = i + 1;
    }
    true
}

/// The next halfedge within the same triangle, as the triangulation lays
/// them out in triples.
pub open spec fn next_he(i: int) -> int {
    if i % 3 == 2 {
        i - 2
    } else {
        i + 1
    }
}

fn next_halfedge(i: usize, n: usize) -> (r: usize)
    requires
        i < n,
        n % 3 == 0,
    ensures
        r == next_he(i as int),
        r < n,
{
    if i % 3 == 2 {
        i - 2
    } else {
        proof {
            assert(i as int + 1 < n as int) by (nonlinear_arith)
                requires
                    (i as int) < n as int,
                    n as int % 3 == 0,
                    (i as int) % 3 != 2,
            {}
        }
        i + 1
    }
}

proof fn lemma_ring_sums_in_range(p: Seq<Pos>)
    requires
        forall|j: int| 0 <= j < p.len() ==> pos_ok(#[trigger] p[j]),
    ensures
        0 <= ring_sum_x(p) <= p.len() * MAX_COORD,
        0 <= ring_sum_y(p) <= p.len() * MAX_COORD,
    decreases p.len(),
{
    if p.len() > 0 {
        lemma_ring_sums_in_range(p.drop_last());
        assert((p.len() - 1) * MAX_COORD + MAX_COORD == p.len() * MAX_COORD) by (nonlinear_arith);
    }
}

proof fn lemma_ring_sum_scaled(a: Seq<Pos>, b: Seq<Pos>, m: int)
    requires
        a.len() == b.len(),
        forall|j: int|
            0 <= j < a.len() ==> (#[trigger] b[j]).x == a[j].x * m && b[j].y == a[j].y * m,
    ensures
        ring_sum_x(b) == m * ring_sum_x(a),
        ring_sum_y(b) == m * ring_sum_y(a),
    decreases a.len(),
{
    if a.len() == 0 {
        assert(m * 0 == 0) by (nonlinear_arith);
    } else {
        assert forall|j: int| 0 <= j < a.drop_last().len() implies (
        #[trigger] b.drop_last()[j]).x == a.drop_last()[j].x * m && b.drop_last()[j].y
            == a.drop_last()[j].y * m by {
            assert(b.drop_last()[j] == b[j]);
            assert(a.drop_last()[j] == a[j]);
        }
        lemma_ring_sum_scaled(a.drop_last(), b.drop_last(), m);
        assert(b[a.len() - 1].x == a[a.len() - 1].x * m && b[a.len() - 1].y == a[a.len() - 1].y
            * m);
        assert(ring_sum_x(b) == ring_sum_x(b.drop_last()) + b.last().x);
        assert(ring_sum_x(a) == ring_sum_x(a.drop_last()) + a.last().x);
        assert(ring_sum_y(b) == ring_sum_y(b.drop_last()) + b.last().y);
        assert(ring_sum_y(a) == ring_sum_y(a.drop_last()) + a.last().y);
        assert(b.last().x == m * a.last().x && b.last().y == m * a.last().y) by (nonlinear_arith)
            requires
                b.last().x == a.last().x * m,
                b.last().y == a.last().y * m,
        {}
        assert(m * (ring_sum_x(a.drop_last()) + a.last().x) == m * ring_sum_x(a.drop_last()) + m
            * a.last().x) by (nonlinear_arith);
        assert(m * (ring_sum_y(a.drop_last()) + a.last().y) == m * ring_sum_y(a.drop_last()) + m
            * a.last().y) by (nonlinear_arith);
    }
}

/// Whether `v` is the (rounded-down) centroid of some triangle of the
/// triangulation `tris` over `points`.
pub open spec fn tri_centroid_vertex(v: Pos, points: Seq<Pos>, tris: Seq<usize>) -> bool {
    exists|h: int|
        #![trigger tris[h]]
        0 <= h < tris.len() && v == (Pos {
            x: ((points[tris[h] as int].x + points[tris[next_he(h)] as int].x + points[tris[next_he(
                next_he(h),
            )] as int].x) / 3) as i64,
            y: ((points[tris[h] as int].y + points[tris[next_he(h)] as int].y + points[tris[next_he(
                next_he(h),
            )] as int].y) / 3) as i64,
        })
}

/// [`tri_centroid_vertex`] scaled by `m`: the form the returned polygons
/// take after conversion to stored thousandths.
pub open spec fn scaled_tri_centroid_vertex(v: Pos, points: Seq<Pos>, tris: Seq<usize>, m: int) -> bool {
    exists|h: int|
        #![trigger tris[h]]
        0 <= h < tris.len() && v == (Pos {
            x: (((points[tris[h] as int].x + points[tris[next_he(h)] as int].x + points[tris[next_he(
                next_he(h),
            )] as int].x) / 3) * m) as i64,
            y: (((points[tris[h] as int].y + points[tris[next_he(h)] as int].y + points[tris[next_he(
                next_he(h),
            )] as int].y) / 3) * m) as i64,
        })
}

/// One round of the Delaunay walk: for each unvisited triangle ring, the
/// ring's triangle centroids (one Voronoi polygon vertex per triangle), the
/// polygon's centroid, and whether the ring reached the hull.  Returns the
/// per-site centroids and, when `collect` is set, the polygons of the
/// sites that stayed interior.
fn walk_triangles(points: &Vec<Pos>, t: &Triangulation, collect: bool) -> (r: Result<
    (Vec<Pos>, Vec<Vec<Pos>>),
    GenError,
>)
    requires
        tri_wf(*t, points@.len() as int),
        forall|i: int| 0 <= i < points@.len() ==> pos_ok(#[trigger] points@[i]),
    ensures
        match r {
            Ok((centers, polys)) => {
                &&& forall|i: int| 0 <= i < centers@.len() ==> pos_ok(#[trigger] centers@[i])
                &&& forall|i: int, j: int|
                    0 <= i < polys@.len() && 0 <= j < polys@[i]@.len() ==> pos_ok(
                        #[trigger] polys@[i]@[j],
                    )
                &&& forall|i: int|
                    0 <= i < polys@.len() ==> 1 <= (#[trigger] polys@[i])@.len() <= MAX_RING
                &&& (!collect ==> polys@.len() == 0)
                &&& (collect ==> centers@.len() == polys@.len() && forall|k: int|
                    0 <= k < centers@.len() ==> (#[trigger] centers@[k]) == (Pos {
                        x: (ring_sum_x(polys@[k]@) / polys@[k]@.len() as int) as i64,
                        y: (ring_sum_y(polys@[k]@) / polys@[k]@.len() as int) as i64,
                    }))
                &&& forall|k: int, j: int|
                    0 <= k < polys@.len() && 0 <= j < polys@[k]@.len() ==> tri_centroid_vertex(
                        #[trigger] polys@[k]@[j],
                        points@,
                        t.triangles@,
                    )
            },
            Err(e) => e == GenError::TessellationFailed,
        },
{
    let n = t.triangles.len();
    let mut seen: Vec<bool> = Vec::new();
    let mut i: usize = 0;
    while i < n
        invariant
            i <= n,
            seen@.len() == i,
        decreases n - i,
    {
        seen.push(false);
        i = i + 1;
    }
    let mut centers: Vec<Pos> = Vec::new();
    let mut polys: Vec<Vec<Pos>> = Vec::new();
    let mut tri_iter: usize = 0;
    while tri_iter < n
        invariant
            tri_iter <= n,
            n == t.triangles@.len(),
            seen@.len() == n,
            tri_wf(*t, points@.len() as int),
            forall|k: int| 0 <= k < points@.len() ==> pos_ok(#[trigger] points@[k]),
            forall|k: int| 0 <= k < centers@.len() ==> pos_ok(#[trigger] centers@[k]),
            forall|k: int, j: int|
                0 <= k < polys@.len() && 0 <= j < polys@[k]@.len() ==> pos_ok(
                    #[trigger] polys@[k]@[j],
                ),
            forall|k: int| 0 <= k < polys@.len() ==> 1 <= (#[trigger] polys@[k])@.len() <= MAX_RING,
            !collect ==> polys@.len() == 0,
            collect ==> centers@.len() == polys@.len(),
            collect ==> forall|k: int|
                0 <= k < centers@.len() ==> (#[trigger] centers@[k]) == (Pos {
                    x: (ring_sum_x(polys@[k]@) / polys@[k]@.len() as int) as i64,
                    y: (ring_sum_y(polys@[k]@) / polys@[k]@.len() as int) as i64,
                }),
            forall|k: int, j: int|
                0 <= k < polys@.len() && 0 <= j < polys@[k]@.len() ==> tri_centroid_vertex(
                    #[trigger] polys@[k]@[j],
                    points@,
                    t.triangles@,
                ),
        decreases n - tri_iter,
    {
        if seen[tri_iter] {
            tri_iter = tri_iter + 1;
            continue ;
        }
        let mut curr: usize = tri_iter;
        let mut steps: usize = 0;
        let mut count: u64 = 0;
        let mut sum_x: u64 = 0;
        let mut sum_y: u64 = 0;
        let mut ring: Vec<Pos> = Vec::new();
        let mut bailed = false;
        let mut closed = false;
        while !closed && !bailed
            invariant
                n == t.triangles@.len(),
                seen@.len() == n,
                tri_wf(*t, points@.len() as int),
                forall|k: int| 0 <= k < points@.len() ==> pos_ok(#[trigger] points@[k]),
                curr < n,
                steps <= n,
                count == steps,
                sum_x <= count * MAX_COORD,
                sum_y <= count * MAX_COORD,
                forall|k: int| 0 <= k < ring@.len() ==> pos_ok(#[trigger] ring@[k]),
                ring@.len() <= count,
                closed ==> count >= 1,
                !(closed && bailed),
                collect && !bailed ==> ring@.len() == count && sum_x == ring_sum_x(ring@) && sum_y
                    == ring_sum_y(ring@),
                forall|j: int|
                    0 <= j < ring@.len() ==> tri_centroid_vertex(
                        #[trigger] ring@[j],
                        points@,
                        t.triangles@,
                    ),
            decreases n - steps,
        {
            if steps >= n {
                return Err(GenError::TessellationFailed);
            }
            seen[curr] = true;
            let ghost h0 = curr as int;
            let a = points[t.triangles[curr]];
            curr = next_halfedge(curr, n);
            let b = points[t.triangles[curr]];
            curr = next_halfedge(curr, n);
            let c = points[t.triangles[curr]];
            proof {
                assert((a.x as u64) + (b.x as u64) + (c.x as u64) <= 3 * MAX_COORD);
            }
            let vor_x = ((a.x as u64) + (b.x as u64) + (c.x as u64)) / 3;
            let vor_y = ((a.y as u64) + (b.y as u64) + (c.y as u64)) / 3;
            let vor_pt = Pos { x: vor_x as i64, y: vor_y as i64 };
            proof {
                assert(tri_centroid_vertex(vor_pt, points@, t.triangles@)) by {
                    assert(a == points@[t.triangles@[h0] as int]);
                    assert(b == points@[t.triangles@[next_he(h0)] as int]);
                    assert(c == points@[t.triangles@[next_he(next_he(h0))] as int]);
                }
            }
            sum_x = sum_x + vor_x;
            sum_y = sum_y + vor_y;
            count = count + 1;
            steps = steps + 1;
            let next_tri = t.halfedges[curr];
            if next_tri == usize::MAX {
                bailed = true;
            } else {
                if collect {
                    let ghost ring0 = ring@;
                    ring.push(vor_pt);
                    proof {
                        assert(ring@.drop_last() =~= ring0);
                        assert(ring@.last() == vor_pt);
                    }
                }
                if next_tri == tri_iter {
                    closed = true;
                } else {
                    curr = next_tri;
                }
            }
        }
        if closed {
            proof {
                assert(sum_x / count <= MAX_COORD as u64 && sum_y / count <= MAX_COORD
                    as u64) by (nonlinear_arith)
                    requires
                        sum_x <= count * MAX_COORD,
                        sum_y <= count * MAX_COORD,
                        count >= 1,
                        MAX_COORD == 0x7fff_ffff,
                {}
            }
            centers.push(Pos { x: (sum_x / count) as i64, y: (sum_y / count) as i64 });
            if collect {
                proof {
                    assert(ring@.len() == count);
                    assert(sum_x == ring_sum_x(ring@) && sum_y == ring_sum_y(ring@));
                }
                polys.push(ring);
            }
        }
        tri_iter = tri_iter + 1;
    }
    Ok((centers, polys))
}

/// The Delaunay-based relaxation: after `num_lloyd_iterations` rounds of
/// moving sites to their polygon centroids (hull sites re-enter unchanged),
/// returns the seed points, the per-site polygon centroids, and the
/// interior sites' Voronoi polygons, all in stored thousandths.  Centroids
/// pair one-to-one with polygons and each equals its polygon's vertex mean
/// at whole-unit resolution; with no relaxation the seeds are exactly the
/// scaled sample.
///
/// `InvalidDomain` is returned exactly when points are requested from a
/// domain under one world unit on a side, or relaxation is requested
/// without points.
pub fn gen_voronoi_delaunay<R: RandomSource>(
    dims: &Pos,
    num_points: usize,
    num_lloyd_iterations: u32,
    rng: &mut R,
) -> (r: Result<(Vec<Pos>, Vec<Pos>, Vec<Vec<Pos>>), GenError>)
    requires
        dims.x <= MAX_COORD,
        dims.y <= MAX_COORD,
    ensures
        num_points == 0 && num_lloyd_iterations == 0 ==> r is Ok,
        match r {
            Ok((seeds, centers, polys)) => {
                &&& forall|i: int| 0 <= i < seeds@.len() ==> pos_ok(#[trigger] seeds@[i])
                &&& forall|i: int| 0 <= i < centers@.len() ==> pos_ok(#[trigger] centers@[i])
                &&& forall|i: int, j: int|
                    0 <= i < polys@.len() && 0 <= j < polys@[i]@.len() ==> pos_ok(
                        #[trigger] polys@[i]@[j],
                    )
                &&& forall|i: int| 0 <= i < polys@.len() ==> (#[trigger] polys@[i])@.len() >= 1
                &&& (num_points == 0 ==> seeds@.len() == 0 && centers@.len() == 0 && polys@.len()
                    == 0)
                &&& centers@.len() == polys@.len()
                &&& forall|k: int|
                    0 <= k < centers@.len() ==> (#[trigger] centers@[k]) == (Pos {
                        x: (((ring_sum_x(polys@[k]@) / (WORLD_UNIT as int)) / (polys@[k]@.len()
                            as int)) * (WORLD_UNIT as int)) as i64,
                        y: (((ring_sum_y(polys@[k]@) / (WORLD_UNIT as int)) / (polys@[k]@.len()
                            as int)) * (WORLD_UNIT as int)) as i64,
                    })
                &&& (num_points > 0 && num_lloyd_iterations == 0 ==> exists|w0: Seq<Pos>|
                    #[trigger] sample_ok(w0, num_points as int, world_of(*dims)) && seeds@.len()
                        == w0.len() && (forall|i: int|
                        0 <= i < seeds@.len() ==> (#[trigger] seeds@[i]) == (Pos {
                            x: (w0[i].x * WORLD_UNIT) as i64,
                            y: (w0[i].y * WORLD_UNIT) as i64,
                        })) && (forall|k: int, j: int|
                        0 <= k < polys@.len() && 0 <= j < polys@[k]@.len()
                            ==> scaled_tri_centroid_vertex(
                            #[trigger] polys@[k]@[j],
                            w0,
                            delaunay_of(w0).0,
                            WORLD_UNIT as int,
                        )))
            },
            Err(e) => {
                &&& (e == GenError::InvalidDomain <==> (num_points > 0 && (dims.x < WORLD_UNIT
                    || dims.y < WORLD_UNIT)) || (num_points == 0 && num_lloyd_iterations > 0))
                &&& (e == GenError::InvalidDomain || e == GenError::PointSetExhausted || e
                    == GenError::TessellationFailed)
            },
        },
{
    if num_points == 0 {
        if num_lloyd_iterations > 0 {
            return Err(GenError::InvalidDomain);
        }
        return Ok((Vec::new(), Vec::new(), Vec::new()));
    }
    if dims.x < WORLD_UNIT || dims.y < WORLD_UNIT {
        return Err(GenError::InvalidDomain);
    }
    let wb = Pos { x: dims.x / WORLD_UNIT, y: dims.y / WORLD_UNIT };
    proof {
        assert(1 <= wb.x <= MAX_COORD && 1 <= wb.y <= MAX_COORD) by (nonlinear_arith)
            requires
                WORLD_UNIT <= dims.x <= MAX_COORD,
                WORLD_UNIT <= dims.y <= MAX_COORD,
                WORLD_UNIT == 1000,
                wb.x == dims.x / WORLD_UNIT,
                wb.y == dims.y / WORLD_UNIT,
        {}
    }
    let mut points = match gen_points(num_points, &wb, rng) {
        Ok(points) => points,
        Err(e) => {
            return Err(e);
        },
    };
    let ghost w0 = points@;
    let mut i: u32 = 0;
    loop
        invariant
            i <= num_lloyd_iterations,
            num_points > 0,
            WORLD_UNIT <= dims.x <= MAX_COORD,
            WORLD_UNIT <= dims.y <= MAX_COORD,
            i == 0 ==> points@ == w0,
            sample_ok(w0, num_points as int, world_of(*dims)),
            forall|k: int| 0 <= k < points@.len() ==> pos_ok(#[trigger] points@[k]),
        decreases num_lloyd_iterations - i,
    {
        let t = triangulate_raw(&points);
        if !validate_triangulation(&t, points.len()) {
            return Err(GenError::TessellationFailed);
        }
        let collect = i == num_lloyd_iterations;
        let (centers, polys) = match walk_triangles(&points, &t, collect) {
            Ok(cp) => cp,
            Err(e) => {
                return Err(e);
            },
        };
        if i == num_lloyd_iterations {
            let limit = MAX_COORD / WORLD_UNIT;
            if !points_within(&points, limit) || !points_within(&centers, limit)
                || !crate::relax::polys_within(&polys, limit) {
                return Err(GenError::TessellationFailed);
            }
            let ghost pre_centers = centers@;
            let seeds = scale_positions(&points, WORLD_UNIT);
            let centers = scale_positions(&centers, WORLD_UNIT);
            proof {
                assert forall|i0: int, j: int|
                    0 <= i0 < polys@.len() && 0 <= j < polys@[i0]@.len() implies (
                #[trigger] polys@[i0]@[j]).x * WORLD_UNIT <= MAX_COORD && polys@[i0]@[j].y
                    * WORLD_UNIT <= MAX_COORD by {
                    assert(polys@[i0]@[j].x * WORLD_UNIT <= MAX_COORD && polys@[i0]@[j].y
                        * WORLD_UNIT <= MAX_COORD) by (nonlinear_arith)
                        requires
                            0 <= polys@[i0]@[j].x <= MAX_COORD / WORLD_UNIT,
                            0 <= polys@[i0]@[j].y <= MAX_COORD / WORLD_UNIT,
                            WORLD_UNIT == 1000,
                            MAX_COORD == 0x7fff_ffff,
                    {}
                }
                assert(crate::tess::wf_polys(crate::tess::polys_seq(polys))) by {
                    assert forall|i0: int|
                        0 <= i0 < crate::tess::polys_seq(polys).len() implies crate::tess::poly_ok(
                        #[trigger] crate::tess::polys_seq(polys)[i0],
                    ) by {
                        assert(crate::tess::polys_seq(polys)[i0] == polys@[i0]@);
                        assert(1 <= polys@[i0]@.len() <= MAX_RING);
                    }
                }
            }
            let rings = crate::relax::scale_up_polys(&polys, WORLD_UNIT);
            proof {
                assert forall|i0: int, j: int|
                    0 <= i0 < rings@.len() && 0 <= j < rings@[i0]@.len() implies pos_ok(
                    #[trigger] rings@[i0]@[j],
                ) by {
                    assert(crate::tess::polys_seq(rings)[i0] == rings@[i0]@);
                    assert(crate::tess::poly_ok(crate::tess::polys_seq(rings)[i0]));
                }
                assert forall|i0: int| 0 <= i0 < rings@.len() implies (
                #[trigger] rings@[i0])@.len() >= 1 by {
                    assert(crate::tess::polys_seq(rings)[i0] == rings@[i0]@);
                    assert(crate::tess::poly_ok(crate::tess::polys_seq(rings)[i0]));
                }
                assert(rings@.len() == polys@.len()) by {
                    assert(crate::tess::polys_seq(rings).len() == rings@.len());
                }
                assert(centers@.len() == rings@.len());
                assert forall|k: int| 0 <= k < centers@.len() implies (#[trigger] centers@[k])
                    == (Pos {
                    x: (((ring_sum_x(rings@[k]@) / (WORLD_UNIT as int)) / (rings@[k]@.len()
                        as int)) * (WORLD_UNIT as int)) as i64,
                    y: (((ring_sum_y(rings@[k]@) / (WORLD_UNIT as int)) / (rings@[k]@.len()
                        as int)) * (WORLD_UNIT as int)) as i64,
                }) by {
                    let pre_ring = polys@[k]@;
                    let scaled_ring = rings@[k]@;
                    assert(crate::tess::polys_seq(rings)[k] == scaled_ring);
                    assert(crate::tess::polys_seq(polys)[k] == pre_ring);
                    assert forall|j: int| 0 <= j < pre_ring.len() implies (
                    #[trigger] scaled_ring[j]).x == pre_ring[j].x * (WORLD_UNIT as int)
                        && scaled_ring[j].y == pre_ring[j].y * (WORLD_UNIT as int) by {
                        assert(crate::relax::scale_up_spec(
                            crate::tess::polys_seq(polys),
                            WORLD_UNIT as int,
                        )[k][j] == (Pos {
                            x: (pre_ring[j].x * WORLD_UNIT) as i64,
                            y: (pre_ring[j].y * WORLD_UNIT) as i64,
                        }));
                    }
                    assert(scaled_ring.len() == pre_ring.len());
                    lemma_ring_sum_scaled(pre_ring, scaled_ring, WORLD_UNIT as int);
                    let sx = ring_sum_x(pre_ring);
                    let sy = ring_sum_y(pre_ring);
                    assert((WORLD_UNIT as int * sx) / (WORLD_UNIT as int) == sx
                        && (WORLD_UNIT as int * sy) / (WORLD_UNIT as int) == sy)
                        by (nonlinear_arith)
                        requires
                            WORLD_UNIT == 1000,
                    {}
                    assert(pre_centers[k] == (Pos {
                        x: (sx / pre_ring.len() as int) as i64,
                        y: (sy / pre_ring.len() as int) as i64,
                    }));
                    assert(centers@[k] == (Pos {
                        x: (pre_centers[k].x * WORLD_UNIT) as i64,
                        y: (pre_centers[k].y * WORLD_UNIT) as i64,
                    }));
                    assert forall|j: int| 0 <= j < pre_ring.len() implies pos_ok(
                        #[trigger] pre_ring[j],
                    ) by {}
                    lemma_ring_sums_in_range(pre_ring);
                    assert(0 <= sx / pre_ring.len() as int <= MAX_COORD && 0 <= sy
                        / pre_ring.len() as int <= MAX_COORD) by (nonlinear_arith)
                        requires
                            0 <= sx <= pre_ring.len() * MAX_COORD,
                            0 <= sy <= pre_ring.len() * MAX_COORD,
                            pre_ring.len() >= 1,
                            MAX_COORD == 0x7fff_ffff,
                    {}
                    assert(pre_centers[k].x == sx / pre_ring.len() as int && pre_centers[k].y == sy
                        / pre_ring.len() as int);
                    assert(0 <= sx / pre_ring.len() as int <= MAX_COORD / WORLD_UNIT
                        && 0 <= sy / pre_ring.len() as int <= MAX_COORD / WORLD_UNIT);
                    assert((sx / pre_ring.len() as int) * (WORLD_UNIT as int) <= MAX_COORD
                        && (sy / pre_ring.len() as int) * (WORLD_UNIT as int)
                        <= MAX_COORD) by (nonlinear_arith)
                        requires
                            0 <= sx / pre_ring.len() as int <= MAX_COORD / WORLD_UNIT,
                            0 <= sy / pre_ring.len() as int <= MAX_COORD / WORLD_UNIT,
                            WORLD_UNIT == 1000,
                            MAX_COORD == 0x7fff_ffff,
                    {}
                }
                if num_lloyd_iterations == 0 {
                    assert(points@ == w0);
                    assert(sample_ok(w0, num_points as int, world_of(*dims)));
                    assert(seeds@.len() == w0.len());
                    assert forall|k: int, j: int|
                        0 <= k < rings@.len() && 0 <= j
                            < rings@[k]@.len() implies scaled_tri_centroid_vertex(
                        #[trigger] rings@[k]@[j],
                        w0,
                        delaunay_of(w0).0,
                        WORLD_UNIT as int,
                    ) by {
                        assert(crate::tess::polys_seq(rings)[k].len() == crate::tess::polys_seq(
                            polys,
                        )[k].len());
                        assert(rings@[k]@.len() == polys@[k]@.len());
                        let pre_v = polys@[k]@[j];
                        assert(tri_centroid_vertex(pre_v, points@, t.triangles@));
                        let h = choose|h: int|
                            #![trigger t.triangles@[h]]
                            0 <= h < t.triangles@.len() && pre_v == (Pos {
                                x: ((points@[t.triangles@[h] as int].x + points@[t.triangles@[next_he(
                                    h,
                                )] as int].x + points@[t.triangles@[next_he(next_he(h))] as int].x)
                                    / 3) as i64,
                                y: ((points@[t.triangles@[h] as int].y + points@[t.triangles@[next_he(
                                    h,
                                )] as int].y + points@[t.triangles@[next_he(next_he(h))] as int].y)
                                    / 3) as i64,
                            });
                        let sx0 = points@[t.triangles@[h] as int].x + points@[t.triangles@[next_he(
                            h,
                        )] as int].x + points@[t.triangles@[next_he(next_he(h))] as int].x;
                        let sy0 = points@[t.triangles@[h] as int].y + points@[t.triangles@[next_he(
                            h,
                        )] as int].y + points@[t.triangles@[next_he(next_he(h))] as int].y;
                        assert(0 <= sx0 / 3 <= MAX_COORD && 0 <= sy0 / 3 <= MAX_COORD);
                        assert(pre_v.x == sx0 / 3 && pre_v.y == sy0 / 3);
                        assert(pre_v.x <= MAX_COORD / WORLD_UNIT && pre_v.y <= MAX_COORD
                            / WORLD_UNIT);
                        assert((sx0 / 3) * (WORLD_UNIT as int) <= MAX_COORD && (sy0 / 3)
                            * (WORLD_UNIT as int) <= MAX_COORD) by (nonlinear_arith)
                            requires
                                0 <= sx0 / 3 <= MAX_COORD / WORLD_UNIT,
                                0 <= sy0 / 3 <= MAX_COORD / WORLD_UNIT,
                                WORLD_UNIT == 1000,
                                MAX_COORD == 0x7fff_ffff,
                        {}
                        assert(crate::relax::scale_up_spec(
                            crate::tess::polys_seq(polys),
                            WORLD_UNIT as int,
                        )[k][j] == (Pos {
                            x: (pre_v.x * WORLD_UNIT) as i64,
                            y: (pre_v.y * WORLD_UNIT) as i64,
                        }));
                        assert(rings@[k]@[j] == (Pos {
                            x: ((sx0 / 3) * (WORLD_UNIT as int)) as i64,
                            y: ((sy0 / 3) * (WORLD_UNIT as int)) as i64,
                        }));
                        assert(delaunay_of(w0).0 == t.triangles@);
                        assert(delaunay_of(w0).0[h] == t.triangles@[h]);
                    }
                    assert forall|i2: int| 0 <= i2 < seeds@.len() implies (#[trigger] seeds@[i2])
                        == (Pos {
                        x: (w0[i2].x * WORLD_UNIT) as i64,
                        y: (w0[i2].y * WORLD_UNIT) as i64,
                    }) by {
                        assert(points@[i2] == w0[i2]);
                    }
                    assert(sample_ok(w0, num_points as int, world_of(*dims)) && seeds@.len()
                        == w0.len() && (forall|i2: int|
                        0 <= i2 < seeds@.len() ==> (#[trigger] seeds@[i2]) == (Pos {
                            x: (w0[i2].x * WORLD_UNIT) as i64,
                            y: (w0[i2].y * WORLD_UNIT) as i64,
                        })));
                }
            }
            return Ok((seeds, centers, rings));
        }
        // During relaxation the hull sites re-enter the point set unchanged.
        let mut next: Vec<Pos> = centers;
        let mut h: usize = 0;
        while h < t.hull.len()
            invariant
                h <= t.hull@.len(),
                tri_wf(t, points@.len() as int),
                forall|k: int| 0 <= k < points@.len() ==> pos_ok(#[trigger] points@[k]),
                forall|k: int| 0 <= k < next@.len() ==> pos_ok(#[trigger] next@[k]),
            decreases t.hull@.len() - h,
        {
            next.push(points[t.hull[h]]);
            h = h + 1;
        }
        points = next;
        i = i + 1;
    }
}

/// Whether every coordinate of the point list stays within `limit`.
fn points_within(points: &Vec<Pos>, limit: i64) -> (r: bool)
    ensures
        r == forall|i: int|
            0 <= i < points@.len() ==> (#[trigger] points@[i]).x <= limit && points@[i].y <= limit,
{
    let mut i: usize = 0;
    while i < points.len()
        invariant
            i <= points@.len(),
            forall|j: int| 0 <= j < i ==> (#[trigger] points@[j]).x <= limit && points@[j].y <= limit,
        decreases points@.len() - i,
    {
        let p = points[i];
        if p.x > limit || p.y > limit {
            return false;
        }
        i = i + 1;
    }
    true
}

/// Multiplies every coordinate by `k`, converting world units to stored
/// thousandths.
fn scale_positions(points: &Vec<Pos>, k: i64) -> (r: Vec<Pos>)
    requires
        1 <= k,
        forall|i: int| 0 <= i < points@.len() ==> pos_ok(#[trigger] points@[i]),
        forall|i: int|
            0 <= i < points@.len() ==> (#[trigger] points@[i]).x * k <= MAX_COORD
                && points@[i].y * k <= MAX_COORD,
    ensures
        r@.len() == points@.len(),
        forall|i: int|
            0 <= i < points@.len() ==> (#[trigger] r@[i]) == (Pos {
                x: (points@[i].x * k) as i64,
                y: (points@[i].y * k) as i64,
            }),
        forall|i: int| 0 <= i < r@.len() ==> pos_ok(#[trigger] r@[i]),
{
    let mut out: Vec<Pos> = Vec::new();
    let mut i: usize = 0;
    while i < points.len()
        invariant
            i <= points@.len(),
            1 <= k,
            forall|j: int| 0 <= j < points@.len() ==> pos_ok(#[trigger] points@[j]),
            forall|j: int|
                0 <= j < points@.len() ==> (#[trigger] points@[j]).x * k <= MAX_COORD
                    && points@[j].y * k <= MAX_COORD,
            out@.len() == i,
            forall|j: int|
                0 <= j < i ==> (#[trigger] out@[j]) == (Pos {
                    x: (points@[j].x * k) as i64,
                    y: (points@[j].y * k) as i64,
                }),
            forall|j: int| 0 <= j < out@.len() ==> pos_ok(#[trigger] out@[j]),
        decreases points@.len() - i,
    {
        let v = points[i];
        proof {
            assert(v.x * k >= 0 && v.y * k >= 0) by (nonlinear_arith)
                requires
                    v.x >= 0,
                    v.y >= 0,
                    k >= 1,
            {}
        }
        out.push(Pos { x: v.x * k, y: v.y * k });
        i = i + 1;
    }
    out
}

} // verus!
