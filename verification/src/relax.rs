//! Centroid extraction, cell filtering, and the Lloyd relaxation loop.
//!
//! Each relaxation round replaces the seed points by the vertex centroids
//! of their cells and tessellates again; the final round's polygon list
//! feeds the dual-graph assembly.  The tessellator's polygon list may keep
//! walks of the outer boundary alongside the bounded cells; cells wind
//! counterclockwise, boundary walks do not, so a signed-area test separates
//! them.  The relaxation runs on whole world units and the result is scaled
//! back to thousandths at the end.

use vstd::prelude::*;
use crate::geom::{GenError, Pos, pos_ok, MAX_COORD, MAX_RING, WORLD_UNIT};
use crate::rng::RandomSource;
use crate::sample::{gen_points, sample_ok};
use crate::tess::{polys_seq, poly_ok, wf_polys, tessellate, voronoi_polys_of};

verus! {

/// Sum of the `x` coordinates of a vertex ring.
pub open spec fn ring_sum_x(p: Seq<Pos>) -> int
    decreases p.len(),
{
    if p.len() == 0 {
        0
    } else {
        ring_sum_x(p.drop_last()) + p.last().x
    }
}

/// Sum of the `y` coordinates of a vertex ring.
pub open spec fn ring_sum_y(p: Seq<Pos>) -> int
    decreases p.len(),
{
    if p.len() == 0 {
        0
    } else {
        ring_sum_y(p.drop_last()) + p.last().y
    }
}

/// The vertex centroid of a nonempty ring: the (rounded-down) mean of its
/// vertices, axis by axis.
pub open spec fn ring_centroid(p: Seq<Pos>) -> Pos
    recommends
        p.len() > 0,
{
    Pos {
        x: (ring_sum_x(p) / p.len() as int) as i64,
        y: (ring_sum_y(p) / p.len() as int) as i64,
    }
}

/// The centroids of a polygon list, in order, skipping any empty ring
/// rather than dividing by zero.
pub open spec fn centroids_spec(ps: Seq<Seq<Pos>>) -> Seq<Pos>
    decreases ps.len(),
{
    if ps.len() == 0 {
        Seq::empty()
    } else {
        let rest = centroids_spec(ps.drop_last());
        if ps.last().len() == 0 {
            rest
        } else {
            rest.push(ring_centroid(ps.last()))
        }
    }
}

/// Computes the centroid of every nonempty polygon, in listing order.
/// Empty rings are skipped.  Every centroid lies in the same coordinate
/// range as the vertices, so the result can seed the next tessellation.
pub fn poly_centroids(polys: &Vec<Vec<Pos>>) -> (r: Vec<Pos>)
    requires
        wf_polys(polys_seq(*polys)),
    ensures
        r@ == centroids_spec(polys_seq(*polys)),
        forall|i: int| 0 <= i < r@.len() ==> pos_ok(#[trigger] r@[i]),
{
    let mut out: Vec<Pos> = Vec::new();
    let mut i: usize = 0;
    while i < polys.len()
        invariant
            i <= polys@.len(),
            wf_polys(polys_seq(*polys)),
            out@ == centroids_spec(polys_seq(*polys).subrange(0, i as int)),
            forall|k: int| 0 <= k < out@.len() ==> pos_ok(#[trigger] out@[k]),
        decreases polys@.len() - i,
    {
        let p = &polys[i];
        proof {
            assert(polys_seq(*polys)[i as int] == p@);
            assert(poly_ok(polys_seq(*polys)[i as int]));
            assert(polys_seq(*polys).subrange(0, i as int + 1).drop_last() =~= polys_seq(
                *polys,
            ).subrange(0, i as int));
            assert(polys_seq(*polys).subrange(0, i as int + 1).last() == p@);
        }
        if p.len() > 0 {
            let n = p.len();
            let mut sx: u64 = 0;
            let mut sy: u64 = 0;
            let mut j: usize = 0;
            while j < n
                invariant
                    j <= n,
                    n == p@.len(),
                    1 <= n <= MAX_RING,
                    forall|k: int| 0 <= k < p@.len() ==> pos_ok(#[trigger] p@[k]),
                    sx == ring_sum_x(p@.subrange(0, j as int)),
                    sy == ring_sum_y(p@.subrange(0, j as int)),
                    sx <= j * MAX_COORD,
                    sy <= j * MAX_COORD,
                decreases n - j,
            {
                let q = p[j];
                proof {
                    assert(p@.subrange(0, j as int + 1).drop_last() =~= p@.subrange(0, j as int));
                    assert(p@.subrange(0, j as int + 1).last() == p@[j as int]);
                }
                sx = sx + (q.x as u64);
                sy = sy + (q.y as u64);
                j = j + 1;
            }
            proof {
                assert(p@.subrange(0, n as int) =~= p@);
                assert(sx / (n as u64) <= MAX_COORD as u64 && sy / (n as u64) <= MAX_COORD
                    as u64) by (nonlinear_arith)
                    requires
                        sx <= n * MAX_COORD,
                        sy <= n * MAX_COORD,
                        n >= 1,
                        MAX_COORD == 0x7fff_ffff,
                {}
            }
            let cx = sx / (n as u64);
            let cy = sy / (n as u64);
            out.push(Pos { x: cx as i64, y: cy as i64 });
        }
        i = i + 1;
    }
    proof {
        assert(polys_seq(*polys).subrange(0, polys@.len() as int) =~= polys_seq(*polys));
    }
    out
}

/// The cross product of two positions taken as vectors from the origin;
/// the building block of the shoelace formula.
pub open spec fn cross2(a: Pos, b: Pos) -> int {
    a.x * b.y - b.x * a.y
}

/// The shoelace terms of a ring from index `k` on, wrapping at the end.
pub open spec fn shoelace_from(p: Seq<Pos>, k: int) -> int
    decreases p.len() - k,
{
    if k < 0 || k >= p.len() {
        0
    } else {
        cross2(
            p[k],
            p[
                if k + 1 == p.len() {
                    0int
                } else {
                    k + 1
                }
            ],
        ) + shoelace_from(p, k + 1)
    }
}

/// Twice the signed area of a ring: positive for counterclockwise walks,
/// negative for clockwise ones, zero for degenerate out-and-back walks.
pub open spec fn ring_area2(p: Seq<Pos>) -> int {
    shoelace_from(p, 0)
}

fn ring_area2_exec(p: &Vec<Pos>) -> (a: i128)
    requires
        poly_ok(p@),
    ensures
        a == ring_area2(p@),
{
    let n = p.len();
    let mut a: i128 = 0;
    let mut k: usize = n;
    while k > 0
        invariant
            k <= n,
            n == p@.len(),
            1 <= n <= MAX_RING,
            poly_ok(p@),
            a == shoelace_from(p@, k as int),
            -((n - k) as i128 * 0x8000_0000_0000_0000) <= a <= (n - k) as i128
                * 0x8000_0000_0000_0000,
        decreases k,
    {
        k = k - 1;
        let q = p[k];
        let r = p[
            if k + 1 == n {
                0
            } else {
                k + 1
            }
        ];
        proof {
            assert(pos_ok(p@[k as int]));
            assert(pos_ok(p@[
                if k as int + 1 == p@.len() {
                    0int
                } else {
                    k as int + 1
                }
            ]));
            assert(0 <= (q.x as i128) * (r.y as i128) <= 0x4000_0000_0000_0000 && 0 <= (r.x
                as i128) * (q.y as i128) <= 0x4000_0000_0000_0000) by (nonlinear_arith)
                requires
                    0 <= q.x <= 0x7fff_ffff,
                    0 <= q.y <= 0x7fff_ffff,
                    0 <= r.x <= 0x7fff_ffff,
                    0 <= r.y <= 0x7fff_ffff,
            {}
        }
        let term: i128 = (q.x as i128) * (r.y as i128) - (r.x as i128) * (q.y as i128);
        a = a + term;
    }
    a
}

/// The cyclic successor of `k` in a ring of length `n`.
pub open spec fn cyc(k: int, n: int) -> int {
    if k + 1 == n {
        0int
    } else {
        k + 1
    }
}

/// The least index at or after `k` whose vertex equals its cyclic
/// successor, or `-1` when there is none.
pub open spec fn first_dup(p: Seq<Pos>, k: int) -> int
    decreases p.len() - k,
{
    if k < 0 || k >= p.len() {
        -1
    } else if p[k] == p[cyc(k, p.len() as int)] {
        k
    } else {
        first_dup(p, k + 1)
    }
}

/// The least index at or after `k` whose two cyclic neighbours are equal (a
/// spike tip), or `-1` when there is none.
pub open spec fn first_spike(p: Seq<Pos>, k: int) -> int
    decreases p.len() - k,
{
    if k < 0 || k >= p.len() {
        -1
    } else if p[
        if k == 0 {
            p.len() - 1
        } else {
            k - 1
        }
    ] == p[cyc(k, p.len() as int)] {
        k
    } else {
        first_spike(p, k + 1)
    }
}

/// One canonicalization step: remove the first vertex that repeats its
/// successor, else the first spike tip; rings shorter than three vertices
/// are left alone.
pub open spec fn clean_step(p: Seq<Pos>) -> Seq<Pos> {
    if p.len() < 3 {
        p
    } else if first_dup(p, 0) >= 0 {
        p.remove(first_dup(p, 0))
    } else if first_spike(p, 0) >= 0 {
        p.remove(first_spike(p, 0))
    } else {
        p
    }
}

/// A ring with all coincident consecutive vertices and spike tips removed.
/// Truncating tessellation output to the grid can collapse nearby vertices;
/// this removes the zero-length and out-and-back walls that result.
pub open spec fn clean_ring_spec(p: Seq<Pos>) -> Seq<Pos>
    decreases p.len(),
{
    let q = clean_step(p);
    if q.len() < p.len() {
        clean_ring_spec(q)
    } else {
        p
    }
}

/// Every ring of the list canonicalized.
pub open spec fn clean_polys_spec(ps: Seq<Seq<Pos>>) -> Seq<Seq<Pos>> {
    ps.map_values(|p: Seq<Pos>| clean_ring_spec(p))
}

fn clean_step_exec(p: &Vec<Pos>) -> (r: Option<usize>)
    ensures
        match r {
            Some(k) => p@.len() >= 3 && clean_step(p@) == p@.remove(k as int) && (k as int)
                < p@.len(),
            None => clean_step(p@) == p@,
        },
{
    let n = p.len();
    if n < 3 {
        return None;
    }
    let mut k: usize = 0;
    while k < n
        invariant
            k <= n,
            n == p@.len(),
            3 <= n,
            first_dup(p@, 0) == first_dup(p@, k as int),
            forall|t: int| 0 <= t < k ==> p@[t] != p@[cyc(t, p@.len() as int)],
        decreases n - k,
    {
        if p[k] == p[
            if k + 1 == n {
                0
            } else {
                k + 1
            }
        ] {
            return Some(k);
        }
        k = k + 1;
    }
    let mut k: usize = 0;
    while k < n
        invariant
            k <= n,
            n == p@.len(),
            3 <= n,
            first_dup(p@, 0) == -1,
            first_spike(p@, 0) == first_spike(p@, k as int),
        decreases n - k,
    {
        if p[
            if k == 0 {
                n - 1
            } else {
                k - 1
            }
        ] == p[
            if k + 1 == n {
                0
            } else {
                k + 1
            }
        ] {
            return Some(k);
        }
        k = k + 1;
    }
    None
}

fn remove_at(p: &Vec<Pos>, k: usize) -> (r: Vec<Pos>)
    requires
        (k as int) < p@.len(),
    ensures
        r@ == p@.remove(k as int),
{
    let mut r: Vec<Pos> = Vec::new();
    let mut i: usize = 0;
    while i < p.len()
        invariant
            i <= p@.len(),
            (k as int) < p@.len(),
            r@ =~= if i <= k {
                p@.subrange(0, i as int)
            } else {
                p@.subrange(0, k as int) + p@.subrange(k as int + 1, i as int)
            },
        decreases p@.len() - i,
    {
        if i != k {
            r.push(p[i]);
        }
        i = i + 1;
    }
    proof {
        assert(r@ =~= p@.remove(k as int));
    }
    r
}

/// Canonicalizes one ring by repeated removal.
fn clean_ring(p: &Vec<Pos>) -> (r: Vec<Pos>)
    ensures
        r@ == clean_ring_spec(p@),
{
    let mut cur = clone_poly(p);
    loop
        invariant
            clean_ring_spec(cur@) == clean_ring_spec(p@),
        ensures
            cur@ == clean_ring_spec(p@),
        decreases cur@.len(),
    {
        match clean_step_exec(&cur) {
            Some(k) => {
                cur = remove_at(&cur, k);
            },
            None => {
                proof {
                    assert(clean_ring_spec(cur@) == cur@);
                }
                break ;
            },
        }
    }
    cur
}

/// Canonicalizes every ring of a polygon list.  Lengths only shrink and no
/// new coordinates appear, so the list stays acceptable, except that a ring
/// may shrink below three vertices; such degenerate rings have no area and
/// are dropped by the cell filter.
pub fn clean_polys(polys: &Vec<Vec<Pos>>) -> (r: Vec<Vec<Pos>>)
    requires
        wf_polys(polys_seq(*polys)),
    ensures
        polys_seq(r) =~~= clean_polys_spec(polys_seq(*polys)),
        wf_polys(polys_seq(r)),
{
    let mut out: Vec<Vec<Pos>> = Vec::new();
    let mut i: usize = 0;
    while i < polys.len()
        invariant
            i <= polys@.len(),
            wf_polys(polys_seq(*polys)),
            out@.len() == i,
            forall|t: int|
                0 <= t < i ==> (#[trigger] out@[t])@ == clean_ring_spec(polys_seq(*polys)[t]),
            forall|t: int| 0 <= t < i ==> poly_ok((#[trigger] out@[t])@),
        decreases polys@.len() - i,
    {
        let p = &polys[i];
        proof {
            assert(polys_seq(*polys)[i as int] == p@);
            assert(poly_ok(polys_seq(*polys)[i as int]));
        }
        let c = clean_ring(p);
        proof {
            lemma_clean_ring_ok(p@);
        }
        out.push(c);
        i = i + 1;
    }
    proof {
        let ps = polys_seq(*polys);
        assert forall|t: int| 0 <= t < polys_seq(out).len() implies polys_seq(out)[t]
            =~= clean_polys_spec(ps)[t] by {
            assert(polys_seq(out)[t] == out@[t]@);
            assert(clean_polys_spec(ps)[t] == clean_ring_spec(ps[t]));
        }
        assert(polys_seq(out) =~~= clean_polys_spec(ps));
        assert forall|t: int| 0 <= t < polys_seq(out).len() implies poly_ok(
            #[trigger] polys_seq(out)[t],
        ) by {
            assert(polys_seq(out)[t] == out@[t]@);
        }
    }
    out
}

proof fn lemma_remove_keeps_ok(p: Seq<Pos>, k: int)
    requires
        poly_ok(p),
        0 <= k < p.len(),
        p.len() >= 2,
    ensures
        poly_ok(p.remove(k)),
{
    p.remove_ensures(k);
    assert forall|j: int| 0 <= j < p.remove(k).len() implies pos_ok(#[trigger] p.remove(k)[j]) by {
        if j < k {
            assert(p.remove(k)[j] == p[j]);
        } else {
            assert(p.remove(k)[j] == p[j + 1]);
        }
    }
}

proof fn lemma_first_indices_range(p: Seq<Pos>, k: int)
    requires
        0 <= k,
    ensures
        first_dup(p, k) == -1 || k <= first_dup(p, k) < p.len(),
        first_spike(p, k) == -1 || k <= first_spike(p, k) < p.len(),
    decreases p.len() - k,
{
    if k < p.len() {
        lemma_first_indices_range(p, k + 1);
    }
}

proof fn lemma_clean_ring_ok(p: Seq<Pos>)
    requires
        poly_ok(p),
    ensures
        poly_ok(clean_ring_spec(p)),
    decreases p.len(),
{
    let q = clean_step(p);
    if q.len() < p.len() {
        assert(p.len() >= 3);
        lemma_first_indices_range(p, 0);
        if first_dup(p, 0) >= 0 {
            lemma_remove_keeps_ok(p, first_dup(p, 0));
        } else {
            lemma_remove_keeps_ok(p, first_spike(p, 0));
        }
        lemma_clean_ring_ok(q);
    }
}

/// The points kept in first-occurrence order, later repeats dropped.
pub open spec fn dedup_spec(s: Seq<Pos>) -> Seq<Pos>
    decreases s.len(),
{
    if s.len() == 0 {
        Seq::empty()
    } else {
        let rest = dedup_spec(s.drop_last());
        if rest.contains(s.last()) {
            rest
        } else {
            rest.push(s.last())
        }
    }
}

/// Drops repeated points, keeping first occurrences in order.  Relaxation
/// can move two sites onto the same grid point; the tessellator requires
/// distinct sites, so every round's point set passes through here.
pub fn dedup_points(points: &Vec<Pos>) -> (r: Vec<Pos>)
    ensures
        r@ == dedup_spec(points@),
        r@.no_duplicates(),
        points@.len() > 0 ==> r@.len() > 0,
        forall|i: int| 0 <= i < r@.len() ==> points@.contains(#[trigger] r@[i]),
{
    let mut out: Vec<Pos> = Vec::new();
    let mut i: usize = 0;
    while i < points.len()
        invariant
            i <= points@.len(),
            out@ == dedup_spec(points@.subrange(0, i as int)),
            out@.no_duplicates(),
            i > 0 ==> out@.len() > 0,
            forall|t: int| 0 <= t < out@.len() ==> points@.contains(#[trigger] out@[t]),
        decreases points@.len() - i,
    {
        let p = points[i];
        proof {
            assert(points@.subrange(0, i as int + 1).drop_last() =~= points@.subrange(0, i as int));
            assert(points@.subrange(0, i as int + 1).last() == p);
        }
        if !crate::sample::contains(&p, &out) {
            let ghost out0 = out@;
            out.push(p);
            proof {
                assert forall|a: int, b: int|
                    0 <= a < b < out@.len() && out@[a] == out@[b] implies false by {
                    if b < out0.len() {
                    } else {
                        assert(out0.contains(out0[a]));
                    }
                }
                assert(points@.contains(p)) by {
                    assert(points@[i as int] == p);
                }
            }
        }
        i = i + 1;
    }
    proof {
        assert(points@.subrange(0, points@.len() as int) =~= points@);
    }
    out
}

proof fn lemma_ccw_ring_has_three_corners(p: Seq<Pos>)
    requires
        ring_area2(p) > 0,
    ensures
        p.len() >= 3,
{
    if p.len() == 1 {
        assert(shoelace_from(p, 0) == cross2(p[0], p[0]) + shoelace_from(p, 1));
    } else if p.len() == 2 {
        assert(shoelace_from(p, 0) == cross2(p[0], p[1]) + shoelace_from(p, 1));
        assert(shoelace_from(p, 1) == cross2(p[1], p[0]) + shoelace_from(p, 2));
    }
}

/// Every coordinate of the polygon list lies in `[0, limit]` (lower bounds
/// come from validation).
pub open spec fn polys_bounded(ps: Seq<Seq<Pos>>, limit: int) -> bool {
    forall|i: int, j: int|
        0 <= i < ps.len() && 0 <= j < ps[i].len() ==> (#[trigger] ps[i][j]).x <= limit
            && ps[i][j].y <= limit
}

/// The subsequence of counterclockwise rings: the bounded cells.
pub open spec fn cells_spec(ps: Seq<Seq<Pos>>) -> Seq<Seq<Pos>>
    decreases ps.len(),
{
    if ps.len() == 0 {
        Seq::empty()
    } else {
        let rest = cells_spec(ps.drop_last());
        if ring_area2(ps.last()) > 0 {
            rest.push(ps.last())
        } else {
            rest
        }
    }
}

fn clone_poly(p: &Vec<Pos>) -> (r: Vec<Pos>)
    ensures
        r@ == p@,
{
    let mut r: Vec<Pos> = Vec::new();
    let mut i: usize = 0;
    while i < p.len()
        invariant
            i <= p@.len(),
            r@ =~= p@.subrange(0, i as int),
        decreases p@.len() - i,
    {
        r.push(p[i]);
        proof {
            assert(r@ =~= p@.subrange(0, i as int + 1));
        }
        i = i + 1;
    }
    proof {
        assert(p@.subrange(0, p@.len() as int) =~= p@);
    }
    r
}

/// Keeps exactly the counterclockwise rings of a polygon list.  The
/// tessellator's list can retain clockwise or degenerate walks of the outer
/// boundary; this is where the unbounded side of the diagram is dropped.
pub fn filter_cells(polys: &Vec<Vec<Pos>>) -> (r: Vec<Vec<Pos>>)
    requires
        wf_polys(polys_seq(*polys)),
    ensures
        polys_seq(r) == cells_spec(polys_seq(*polys)),
        wf_polys(polys_seq(r)),
        forall|i: int| 0 <= i < r@.len() ==> (#[trigger] r@[i])@.len() >= 3,
{
    let mut out: Vec<Vec<Pos>> = Vec::new();
    let mut i: usize = 0;
    while i < polys.len()
        invariant
            i <= polys@.len(),
            wf_polys(polys_seq(*polys)),
            polys_seq(out) == cells_spec(polys_seq(*polys).subrange(0, i as int)),
            wf_polys(polys_seq(out)),
            forall|t: int| 0 <= t < out@.len() ==> (#[trigger] out@[t])@.len() >= 3,
        decreases polys@.len() - i,
    {
        let p = &polys[i];
        proof {
            assert(polys_seq(*polys)[i as int] == p@);
            assert(poly_ok(polys_seq(*polys)[i as int]));
            assert(polys_seq(*polys).subrange(0, i as int + 1).drop_last() =~= polys_seq(
                *polys,
            ).subrange(0, i as int));
            assert(polys_seq(*polys).subrange(0, i as int + 1).last() == p@);
        }
        let a = ring_area2_exec(p);
        if a > 0 {
            let ghost out0 = polys_seq(out);
            out.push(clone_poly(p));
            proof {
                lemma_ccw_ring_has_three_corners(p@);
                assert(polys_seq(out) =~= out0.push(p@));
            }
        }
        i = i + 1;
    }
    proof {
        assert(polys_seq(*polys).subrange(0, polys@.len() as int) =~= polys_seq(*polys));
    }
    out
}

/// A polygon list with every coordinate multiplied by `k`.
pub open spec fn scale_up_spec(ps: Seq<Seq<Pos>>, k: int) -> Seq<Seq<Pos>> {
    ps.map_values(
        |p: Seq<Pos>| p.map_values(|q: Pos| Pos { x: (q.x * k) as i64, y: (q.y * k) as i64 }),
    )
}

/// Multiplies every coordinate by `k`, converting a world-unit polygon list
/// to stored thousandths.
pub(crate) fn scale_up_polys(polys: &Vec<Vec<Pos>>, k: i64) -> (r: Vec<Vec<Pos>>)
    requires
        1 <= k,
        wf_polys(polys_seq(*polys)),
        forall|i: int, j: int|
            0 <= i < polys@.len() && 0 <= j < polys@[i]@.len() ==> (#[trigger] polys@[i]@[j]).x * k
                <= MAX_COORD && polys@[i]@[j].y * k <= MAX_COORD,
    ensures
        polys_seq(r) =~~= scale_up_spec(polys_seq(*polys), k as int),
        wf_polys(polys_seq(r)),
{
    let mut out: Vec<Vec<Pos>> = Vec::new();
    let mut i: usize = 0;
    while i < polys.len()
        invariant
            i <= polys@.len(),
            1 <= k,
            wf_polys(polys_seq(*polys)),
            forall|i0: int, j: int|
                0 <= i0 < polys@.len() && 0 <= j < polys@[i0]@.len() ==> (
                #[trigger] polys@[i0]@[j]).x * k <= MAX_COORD && polys@[i0]@[j].y * k <= MAX_COORD,
            out@.len() == i,
            forall|t: int, j: int|
                0 <= t < i && 0 <= j < out@[t]@.len() ==> (#[trigger] out@[t]@[j]) == (Pos {
                    x: (polys@[t]@[j].x * k) as i64,
                    y: (polys@[t]@[j].y * k) as i64,
                }),
            forall|t: int| 0 <= t < i ==> (#[trigger] out@[t])@.len() == polys@[t]@.len(),
            forall|t: int, j: int|
                0 <= t < i && 0 <= j < out@[t]@.len() ==> pos_ok(#[trigger] out@[t]@[j]),
        decreases polys@.len() - i,
    {
        let p = &polys[i];
        proof {
            assert(polys_seq(*polys)[i as int] == p@);
            assert(poly_ok(polys_seq(*polys)[i as int]));
        }
        let mut q: Vec<Pos> = Vec::new();
        let mut j: usize = 0;
        while j < p.len()
            invariant
                j <= p@.len(),
                1 <= k,
                0 <= i < polys@.len(),
                p@ == polys@[i as int]@,
                poly_ok(p@),
                forall|i0: int, j0: int|
                    0 <= i0 < polys@.len() && 0 <= j0 < polys@[i0]@.len() ==> (
                    #[trigger] polys@[i0]@[j0]).x * k <= MAX_COORD && polys@[i0]@[j0].y * k
                        <= MAX_COORD,
                q@.len() == j,
                forall|t: int|
                    0 <= t < j ==> (#[trigger] q@[t]) == (Pos {
                        x: (p@[t].x * k) as i64,
                        y: (p@[t].y * k) as i64,
                    }),
                forall|t: int| 0 <= t < q@.len() ==> pos_ok(#[trigger] q@[t]),
            decreases p@.len() - j,
        {
            let v = p[j];
            proof {
                assert(polys@[i as int]@[j as int] == v);
                assert(v.x * k <= MAX_COORD && v.y * k <= MAX_COORD);
                assert(v.x * k >= 0 && v.y * k >= 0) by (nonlinear_arith)
                    requires
                        v.x >= 0,
                        v.y >= 0,
                        k >= 1,
                {}
            }
            q.push(Pos { x: v.x * k, y: v.y * k });
            j = j + 1;
        }
        out.push(q);
        i = i + 1;
    }
    proof {
        let ps = polys_seq(*polys);
        let target = scale_up_spec(ps, k as int);
        assert forall|t: int| 0 <= t < polys_seq(out).len() implies polys_seq(out)[t]
            =~= target[t] by {
            assert(target[t] == ps[t].map_values(
                |q0: Pos| Pos { x: (q0.x * k as int) as i64, y: (q0.y * k as int) as i64 },
            ));
            assert(polys_seq(out)[t] == out@[t]@);
            assert forall|j: int| 0 <= j < out@[t]@.len() implies out@[t]@[j] == target[t][j] by {
                assert(out@[t]@[j] == (Pos {
                    x: (polys@[t]@[j].x * k) as i64,
                    y: (polys@[t]@[j].y * k) as i64,
                }));
            }
        }
        assert(polys_seq(out) =~~= target);
        assert forall|t: int| 0 <= t < polys_seq(out).len() implies poly_ok(
            #[trigger] polys_seq(out)[t],
        ) by {
            assert(polys_seq(out)[t] == out@[t]@);
            assert(poly_ok(ps[t]));
        }
    }
    out
}

/// The seed points after `rounds` Lloyd rounds on the world-unit grid: each
/// round tessellates, keeps the counterclockwise cells, and replaces the
/// points by the cell centroids.
pub open spec fn lloyd_points(points: Seq<Pos>, box_size: int, rounds: nat) -> Seq<Pos>
    decreases rounds,
{
    if rounds == 0 {
        points
    } else {
        dedup_spec(
            centroids_spec(
                cells_spec(
                    clean_polys_spec(
                        voronoi_polys_of(
                            lloyd_points(points, box_size, (rounds - 1) as nat),
                            box_size,
                        ),
                    ),
                ),
            ),
        )
    }
}

/// Whether the relaxation stays healthy through round `rounds`: every
/// round still has a site to tessellate and every tessellation is one the
/// pipeline accepts.
pub open spec fn lloyd_rounds_ok(points: Seq<Pos>, box_size: int, rounds: nat) -> bool {
    forall|i: nat|
        i <= rounds ==> lloyd_points(points, box_size, i).len() > 0 && wf_polys(
            #[trigger] voronoi_polys_of(lloyd_points(points, box_size, i), box_size),
        )
}

/// The cell rings the relaxation ends on: the final round's tessellation,
/// canonicalized and filtered to its counterclockwise cells.
pub open spec fn final_cells(points: Seq<Pos>, box_size: int, rounds: nat) -> Seq<Seq<Pos>> {
    cells_spec(
        clean_polys_spec(voronoi_polys_of(lloyd_points(points, box_size, rounds), box_size)),
    )
}

/// Runs `rounds` Lloyd rounds from `points` and returns the final round's
/// cell rings; fails with `TessellationFailed` exactly when the relaxation
/// degenerates: some round's tessellation is rejected by validation, or a
/// round is left without any site.
pub fn relax_tessellate(points: Vec<Pos>, box_size: i64, rounds: u32) -> (r: Result<
    Vec<Vec<Pos>>,
    GenError,
>)
    requires
        forall|i: int| 0 <= i < points@.len() ==> pos_ok(#[trigger] points@[i]),
        points@.len() > 0,
        points@.no_duplicates(),
        0 < box_size <= MAX_COORD,
    ensures
        match r {
            Ok(polys) => {
                &&& lloyd_rounds_ok(points@, box_size as int, rounds as nat)
                &&& polys_seq(polys) == final_cells(points@, box_size as int, rounds as nat)
                &&& wf_polys(polys_seq(polys))
                &&& forall|i: int| 0 <= i < polys@.len() ==> (#[trigger] polys@[i])@.len() >= 3
            },
            Err(e) => e == GenError::TessellationFailed && !lloyd_rounds_ok(
                points@,
                box_size as int,
                rounds as nat,
            ),
        },
{
    let mut pts = points;
    let mut i: u32 = 0;
    loop
        invariant
            i <= rounds,
            pts@ == lloyd_points(points@, box_size as int, i as nat),
            pts@.len() > 0,
            pts@.no_duplicates(),
            forall|j: nat|
                j <= i ==> lloyd_points(points@, box_size as int, j).len() > 0,
            forall|j: nat|
                j < i ==> wf_polys(
                    #[trigger] voronoi_polys_of(
                        lloyd_points(points@, box_size as int, j),
                        box_size as int,
                    ),
                ),
            forall|k: int| 0 <= k < pts@.len() ==> pos_ok(#[trigger] pts@[k]),
            0 < box_size <= MAX_COORD,
        decreases rounds - i,
    {
        let polys = match tessellate(&pts, box_size) {
            Some(polys) => polys,
            None => {
                proof {
                    assert(!wf_polys(
                        voronoi_polys_of(
                            lloyd_points(points@, box_size as int, i as nat),
                            box_size as int,
                        ),
                    ));
                }
                return Err(GenError::TessellationFailed);
            },
        };
        let cleaned = clean_polys(&polys);
        let cells = filter_cells(&cleaned);
        if i == rounds {
            return Ok(cells);
        }
        let cents = poly_centroids(&cells);
        let next = dedup_points(&cents);
        proof {
            assert(next@ == lloyd_points(points@, box_size as int, (i + 1) as nat));
        }
        if next.len() == 0 {
            proof {
                assert(lloyd_points(points@, box_size as int, (i + 1) as nat).len() == 0);
                assert(!lloyd_rounds_ok(points@, box_size as int, rounds as nat)) by {
                    if lloyd_rounds_ok(points@, box_size as int, rounds as nat) {
                        assert(wf_polys(
                            voronoi_polys_of(
                                lloyd_points(points@, box_size as int, (i + 1) as nat),
                                box_size as int,
                            ),
                        ));
                    }
                }
            }
            return Err(GenError::TessellationFailed);
        }
        proof {
            assert forall|k: int| 0 <= k < next@.len() implies pos_ok(#[trigger] next@[k]) by {
                let t = choose|t: int| 0 <= t < cents@.len() && cents@[t] == next@[k];
            }
        }
        pts = next;
        i = i + 1;
    }
}

/// Whether every coordinate of the polygon list stays within `limit`.
pub(crate) fn polys_within(polys: &Vec<Vec<Pos>>, limit: i64) -> (r: bool)
    ensures
        r == forall|i: int, j: int|
            0 <= i < polys@.len() && 0 <= j < polys@[i]@.len() ==> (#[trigger] polys@[i]@[j]).x
                <= limit && polys@[i]@[j].y <= limit,
{
    let mut i: usize = 0;
    while i < polys.len()
        invariant
            i <= polys@.len(),
            forall|i0: int, j: int|
                0 <= i0 < i && 0 <= j < polys@[i0]@.len() ==> (#[trigger] polys@[i0]@[j]).x
                    <= limit && polys@[i0]@[j].y <= limit,
        decreases polys@.len() - i,
    {
        let p = &polys[i];
        let mut j: usize = 0;
        while j < p.len()
            invariant
                j <= p@.len(),
                0 <= i < polys@.len(),
                p@ == polys@[i as int]@,
                forall|j0: int|
                    0 <= j0 < j ==> (#[trigger] p@[j0]).x <= limit && p@[j0].y <= limit,
            decreases p@.len() - j,
        {
            let q = p[j];
            if q.x > limit || q.y > limit {
                return false;
            }
            j = j + 1;
        }
        i = i + 1;
    }
    true
}

/// The `dims` box in whole world units.
pub open spec fn world_of(dims: Pos) -> Pos {
    Pos { x: (dims.x / WORLD_UNIT) as i64, y: (dims.y / WORLD_UNIT) as i64 }
}

/// Samples `num_points` seed points on the world-unit grid of the `dims`
/// box (given in thousandths) with `rng`, runs `num_lloyd_iterations`
/// relaxation rounds, and returns the final cell rings scaled back to
/// thousandths.  The tessellation box side is the width, matching the
/// tessellator's square clipping region, so every returned coordinate lies
/// in `[0, dims.x]`.
///
/// With no points and no relaxation the result is the empty polygon list;
/// `InvalidDomain` is returned exactly when points are requested from a
/// domain under one world unit on a side, or relaxation is requested
/// without points; `TessellationFailed` only when the relaxation of some
/// sample degenerates (a rejected tessellation, a site-less round, or a
/// vertex outside the clipping box).
pub fn gen_voronoi<R: RandomSource>(
    dims: &Pos,
    num_points: usize,
    num_lloyd_iterations: u32,
    rng: &mut R,
) -> (r: Result<Vec<Vec<Pos>>, GenError>)
    requires
        dims.x <= MAX_COORD,
        dims.y <= MAX_COORD,
    ensures
        num_points == 0 && num_lloyd_iterations == 0 ==> r is Ok,
        match r {
            Ok(polys) => {
                &&& wf_polys(polys_seq(polys))
                &&& forall|i: int| 0 <= i < polys@.len() ==> (#[trigger] polys@[i])@.len() >= 3
                &&& forall|i: int, j: int|
                    0 <= i < polys@.len() && 0 <= j < polys@[i]@.len() ==> 0 <= (
                    #[trigger] polys@[i]@[j]).x <= world_of(*dims).x * WORLD_UNIT && 0
                        <= polys@[i]@[j].y <= world_of(*dims).x * WORLD_UNIT
                &&& (num_points > 0 ==> world_of(*dims).x * WORLD_UNIT <= dims.x)
                &&& (num_points == 0 ==> polys@.len() == 0)
                &&& (num_points > 0 ==> WORLD_UNIT <= dims.x && WORLD_UNIT <= dims.y && exists|
                    w0: Seq<Pos>,
                |
                    #[trigger] sample_ok(w0, num_points as int, world_of(*dims))
                        && lloyd_rounds_ok(
                        w0,
                        world_of(*dims).x as int,
                        num_lloyd_iterations as nat,
                    ) && polys_seq(polys) == scale_up_spec(
                        final_cells(w0, world_of(*dims).x as int, num_lloyd_iterations as nat),
                        WORLD_UNIT as int,
                    ))
            },
            Err(e) => {
                &&& (e == GenError::InvalidDomain <==> (num_points > 0 && (dims.x < WORLD_UNIT
                    || dims.y < WORLD_UNIT)) || (num_points == 0 && num_lloyd_iterations > 0))
                &&& (e == GenError::InvalidDomain || e == GenError::PointSetExhausted || e
                    == GenError::TessellationFailed)
                &&& (e == GenError::TessellationFailed ==> num_points > 0 && exists|w0: Seq<Pos>|
                    #[trigger] sample_ok(w0, num_points as int, world_of(*dims)) && !(
                    lloyd_rounds_ok(w0, world_of(*dims).x as int, num_lloyd_iterations as nat)
                        && polys_bounded(
                        final_cells(w0, world_of(*dims).x as int, num_lloyd_iterations as nat),
                        world_of(*dims).x as int,
                    )))
            },
        },
{
    if num_points == 0 {
        if num_lloyd_iterations > 0 {
            return Err(GenError::InvalidDomain);
        }
        return Ok(Vec::new());
    }
    if dims.x < WORLD_UNIT || dims.y < WORLD_UNIT {
        return Err(GenError::InvalidDomain);
    }
    let wb = Pos { x: dims.x / WORLD_UNIT, y: dims.y / WORLD_UNIT };
    proof {
        assert(wb == world_of(*dims));
        assert(1 <= wb.x <= MAX_COORD / WORLD_UNIT && 1 <= wb.y <= MAX_COORD) by (nonlinear_arith)
            requires
                WORLD_UNIT <= dims.x <= MAX_COORD,
                WORLD_UNIT <= dims.y <= MAX_COORD,
                WORLD_UNIT == 1000,
                MAX_COORD == 0x7fff_ffff,
                wb.x == dims.x / WORLD_UNIT,
                wb.y == dims.y / WORLD_UNIT,
        {}
        vstd::arithmetic::div_mod::lemma_fundamental_div_mod(dims.x as int, WORLD_UNIT as int);
        assert(wb.x * WORLD_UNIT <= dims.x) by (nonlinear_arith)
            requires
                dims.x == WORLD_UNIT * (dims.x / WORLD_UNIT) + dims.x % WORLD_UNIT,
                0 <= dims.x % WORLD_UNIT,
                wb.x == dims.x / WORLD_UNIT,
        {}
    }
    let points = match gen_points(num_points, &wb, rng) {
        Ok(points) => points,
        Err(e) => {
            return Err(e);
        },
    };
    let ghost w0 = points@;
    let polys = match relax_tessellate(points, wb.x, num_lloyd_iterations) {
        Ok(polys) => polys,
        Err(e) => {
            proof {
                assert(sample_ok(w0, num_points as int, world_of(*dims)) && !(lloyd_rounds_ok(
                    w0,
                    world_of(*dims).x as int,
                    num_lloyd_iterations as nat,
                ) && polys_bounded(
                    final_cells(w0, world_of(*dims).x as int, num_lloyd_iterations as nat),
                    world_of(*dims).x as int,
                )));
            }
            return Err(e);
        },
    };
    if !polys_within(&polys, wb.x) {
        proof {
            assert(!polys_bounded(
                final_cells(w0, world_of(*dims).x as int, num_lloyd_iterations as nat),
                world_of(*dims).x as int,
            )) by {
                let fc = final_cells(w0, world_of(*dims).x as int, num_lloyd_iterations as nat);
                assert(polys_seq(polys) == fc);
                if polys_bounded(fc, world_of(*dims).x as int) {
                    assert forall|i: int, j: int|
                        0 <= i < polys@.len() && 0 <= j < polys@[i]@.len() implies (
                    #[trigger] polys@[i]@[j]).x <= wb.x && polys@[i]@[j].y <= wb.x by {
                        assert(fc[i][j] == polys@[i]@[j]);
                    }
                }
            }
            assert(sample_ok(w0, num_points as int, world_of(*dims)) && !(lloyd_rounds_ok(
                w0,
                world_of(*dims).x as int,
                num_lloyd_iterations as nat,
            ) && polys_bounded(
                final_cells(w0, world_of(*dims).x as int, num_lloyd_iterations as nat),
                world_of(*dims).x as int,
            )));
        }
        return Err(GenError::TessellationFailed);
    }
    proof {
        assert forall|i: int, j: int|
            0 <= i < polys@.len() && 0 <= j < polys@[i]@.len() implies (
        #[trigger] polys@[i]@[j]).x * WORLD_UNIT <= MAX_COORD && polys@[i]@[j].y * WORLD_UNIT
            <= MAX_COORD by {
            assert(poly_ok(polys_seq(polys)[i]));
            assert(pos_ok(polys_seq(polys)[i][j]));
            assert(polys@[i]@[j].x * WORLD_UNIT <= MAX_COORD && polys@[i]@[j].y * WORLD_UNIT
                <= MAX_COORD) by (nonlinear_arith)
                requires
                    0 <= polys@[i]@[j].x <= wb.x,
                    0 <= polys@[i]@[j].y <= wb.x,
                    wb.x <= MAX_COORD / WORLD_UNIT,
                    WORLD_UNIT == 1000,
                    MAX_COORD == 0x7fff_ffff,
            {}
        }
    }
    let scaled = scale_up_polys(&polys, WORLD_UNIT);
    proof {
        assert(sample_ok(w0, num_points as int, world_of(*dims)) && lloyd_rounds_ok(
            w0,
            world_of(*dims).x as int,
            num_lloyd_iterations as nat,
        ) && polys_seq(scaled) == scale_up_spec(
            final_cells(w0, world_of(*dims).x as int, num_lloyd_iterations as nat),
            WORLD_UNIT as int,
        ));
        assert forall|i: int| 0 <= i < scaled@.len() implies (#[trigger] scaled@[i])@.len()
            >= 3 by {
            assert(polys_seq(scaled)[i] =~= scale_up_spec(polys_seq(polys), WORLD_UNIT as int)[i]);
            assert(scale_up_spec(polys_seq(polys), WORLD_UNIT as int)[i].len()
                == polys_seq(polys)[i].len());
        }
        assert forall|i: int, j: int|
            0 <= i < scaled@.len() && 0 <= j < scaled@[i]@.len() implies 0 <= (
        #[trigger] scaled@[i]@[j]).x <= wb.x * WORLD_UNIT && 0 <= scaled@[i]@[j].y <= wb.x
            * WORLD_UNIT by {
            assert(polys_seq(scaled)[i][j] == scale_up_spec(
                polys_seq(polys),
                WORLD_UNIT as int,
            )[i][j]);
            assert(scale_up_spec(polys_seq(polys), WORLD_UNIT as int)[i][j] == (Pos {
                x: (polys_seq(polys)[i][j].x * WORLD_UNIT) as i64,
                y: (polys_seq(polys)[i][j].y * WORLD_UNIT) as i64,
            }));
            assert(0 <= polys@[i]@[j].x <= wb.x && 0 <= polys@[i]@[j].y <= wb.x);
        }
    }
    Ok(scaled)
}

} // verus!
