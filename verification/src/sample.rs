//! Jittered point sampling: `count` distinct points in the domain, sorted by
//! ascending `y`, with a strict gap between the two largest `y` values.  The
//! tessellator's sweepline initialization degenerates without that gap.

use vstd::prelude::*;
use crate::geom::{GenError, Pos, MAX_COORD};
use crate::rng::RandomSource;

verus! {

/// How many times one point may be redrawn after colliding with an earlier
/// point before sampling gives up.
pub const RETRY_BUDGET: usize = 64;

/// Ascending order on the `y` coordinate.
pub open spec fn sorted_by_y(s: Seq<Pos>) -> bool {
    forall|i: int, j: int| 0 <= i < j < s.len() ==> s[i].y <= s[j].y
}

/// Whether `points` already holds `point`.  Two points collide exactly when
/// they agree on both axes: with fixed-point coordinates one unit is the
/// minimum separation the sampler guarantees.
pub fn contains(point: &Pos, points: &Vec<Pos>) -> (r: bool)
    ensures
        r == points@.contains(*point),
{
    let mut i: usize = 0;
    while i < points.len()
        invariant
            i <= points@.len(),
            forall|j: int| 0 <= j < i ==> points@[j] != *point,
        decreases points@.len() - i,
    {
        if points[i] == *point {
            return true;
        }
        i = i + 1;
    }
    assert(!points@.contains(*point));
    false
}

/// The point two raw draws map to: each draw reduced modulo its axis.
pub open spec fn point_of_draws(rx: u64, ry: u64, bounds: Pos) -> Pos
    recommends
        0 < bounds.x,
        0 < bounds.y,
{
    Pos { x: (rx % (bounds.x as u64)) as i64, y: (ry % (bounds.y as u64)) as i64 }
}

/// Turns two raw draws into a domain point, exactly as [`point_of_draws`]
/// says; randomness only ever enters the sampler through this mapping.
pub fn point_from_draws(rx: u64, ry: u64, bounds: &Pos) -> (p: Pos)
    requires
        0 < bounds.x <= MAX_COORD,
        0 < bounds.y <= MAX_COORD,
    ensures
        p == point_of_draws(rx, ry, *bounds),
        0 <= p.x < bounds.x,
        0 <= p.y < bounds.y,
{
    Pos { x: (rx % (bounds.x as u64)) as i64, y: (ry % (bounds.y as u64)) as i64 }
}

fn draw_point<R: RandomSource>(bounds: &Pos, rng: &mut R) -> (p: Pos)
    requires
        0 < bounds.x <= MAX_COORD,
        0 < bounds.y <= MAX_COORD,
    ensures
        0 <= p.x < bounds.x,
        0 <= p.y < bounds.y,
{
    let rx = rng.next_u64();
    let ry = rng.next_u64();
    point_from_draws(rx, ry, bounds)
}

proof fn lemma_insert_multiset(s: Seq<Pos>, k: int, p: Pos)
    requires
        0 <= k <= s.len(),
    ensures
        s.insert(k, p).to_multiset() == s.to_multiset().insert(p),
{
    broadcast use vstd::seq_lib::group_to_multiset_ensures;

    let a = s.subrange(0, k);
    let b = s.subrange(k, s.len() as int);
    assert(s =~= a + b);
    assert(s.insert(k, p) =~= a.push(p) + b);
    vstd::seq_lib::lemma_multiset_commutative(a, b);
    vstd::seq_lib::lemma_multiset_commutative(a.push(p), b);
    assert(a.push(p).to_multiset() =~= a.to_multiset().insert(p));
    assert(a.to_multiset().insert(p).add(b.to_multiset()) =~= a.to_multiset().add(
        b.to_multiset(),
    ).insert(p));
}

/// Sorts by ascending `y` (insertion sort, stable).  The result is a
/// permutation of the input.
fn sort_by_y(points: &Vec<Pos>) -> (r: Vec<Pos>)
    ensures
        r@.len() == points@.len(),
        r@.to_multiset() == points@.to_multiset(),
        sorted_by_y(r@),
{
    broadcast use vstd::seq_lib::group_to_multiset_ensures;

    let mut out: Vec<Pos> = Vec::new();
    let mut i: usize = 0;
    while i < points.len()
        invariant
            i <= points@.len(),
            out@.len() == i,
            out@.to_multiset() == points@.subrange(0, i as int).to_multiset(),
            sorted_by_y(out@),
        decreases points@.len() - i,
    {
        let p = points[i];
        let mut k: usize = 0;
        while k < out.len() && out[k].y <= p.y
            invariant
                k <= out@.len(),
                forall|j: int| 0 <= j < k ==> out@[j].y <= p.y,
            decreases out@.len() - k,
        {
            k = k + 1;
        }
        let ghost prev = out@;
        out.insert(k, p);
        proof {
            prev.insert_ensures(k as int, p);
            lemma_insert_multiset(prev, k as int, p);
            assert(points@.subrange(0, i as int).push(p) =~= points@.subrange(0, i as int + 1));
            points@.subrange(0, i as int).to_multiset_ensures();
            assert(points@.subrange(0, i as int).push(p).to_multiset() =~= points@.subrange(
                0,
                i as int,
            ).to_multiset().insert(p));
            assert forall|a: int, b: int| 0 <= a < b < out@.len() implies out@[a].y <= out@[b].y by {
                if a < k && b == k {
                } else if a == k && b > k {
                    assert(out@[b] == prev[b - 1]);
                    assert(prev[k as int].y <= prev[b - 1].y);
                } else if a < k && b > k {
                    assert(out@[b] == prev[b - 1]);
                } else if a > k {
                    assert(out@[a] == prev[a - 1]);
                    assert(out@[b] == prev[b - 1]);
                }
            }
        }
        i = i + 1;
    }
    proof {
        assert(points@.subrange(0, points@.len() as int) =~= points@);
    }
    out
}

/// Everything [`gen_points`] promises of a successful sample: exactly
/// `count` points, pairwise distinct, sorted by ascending `y`, inside the
/// domain (the last point's `y` may sit on `bounds.y` after a nudge), with a
/// strict gap between the two largest `y` values, from a positive domain.
pub open spec fn sample_ok(pts: Seq<Pos>, count: int, bounds: Pos) -> bool {
    &&& pts.len() == count
    &&& pts.no_duplicates()
    &&& sorted_by_y(pts)
    &&& forall|i: int| 0 <= i < count ==> 0 <= (#[trigger] pts[i]).x < bounds.x
    &&& forall|i: int| 0 <= i < count ==> 0 <= (#[trigger] pts[i]).y <= bounds.y
    &&& forall|i: int| 0 <= i < count - 1 ==> (#[trigger] pts[i]).y < bounds.y
    &&& (count >= 2 ==> pts[count - 1].y > pts[count - 2].y)
    &&& (count > 0 ==> 0 < bounds.x && 0 < bounds.y)
}

/// Samples `count` distinct points of `[0, bounds.x) x [0, bounds.y)`, sorts
/// them by ascending `y`, and, when the two largest `y` values coincide,
/// nudges the last point one unit upward (possibly onto `bounds.y` itself).
///
/// Fails with `InvalidDomain` exactly when points are requested from a
/// domain with a non-positive side, and with `PointSetExhausted` when the
/// supplied randomness keeps colliding past the retry budget.
pub fn gen_points<R: RandomSource>(count: usize, bounds: &Pos, rng: &mut R) -> (r: Result<
    Vec<Pos>,
    GenError,
>)
    requires
        bounds.x <= MAX_COORD,
        bounds.y <= MAX_COORD,
    ensures
        count == 0 ==> r is Ok,
        match r {
            Ok(pts) => sample_ok(pts@, count as int, *bounds),
            Err(e) => {
                &&& (e == GenError::InvalidDomain <==> count > 0 && (bounds.x <= 0 || bounds.y
                    <= 0))
                &&& (e == GenError::InvalidDomain || e == GenError::PointSetExhausted)
            },
        },
{
    if count == 0 {
        return Ok(Vec::new());
    }
    if bounds.x <= 0 || bounds.y <= 0 {
        return Err(GenError::InvalidDomain);
    }
    let mut pts: Vec<Pos> = Vec::new();
    let mut n: usize = 0;
    while n < count
        invariant
            n <= count,
            pts@.len() == n,
            pts@.no_duplicates(),
            forall|i: int| 0 <= i < n ==> 0 <= (#[trigger] pts@[i]).x < bounds.x,
            forall|i: int| 0 <= i < n ==> 0 <= (#[trigger] pts@[i]).y < bounds.y,
            0 < bounds.x <= MAX_COORD,
            0 < bounds.y <= MAX_COORD,
            count > 0,
        decreases count - n,
    {
        let mut tries: usize = 0;
        loop
            invariant_except_break
                tries < RETRY_BUDGET,
                pts@.len() == n,
                pts@.no_duplicates(),
                forall|i: int| 0 <= i < n ==> 0 <= (#[trigger] pts@[i]).x < bounds.x,
                forall|i: int| 0 <= i < n ==> 0 <= (#[trigger] pts@[i]).y < bounds.y,
                0 < bounds.x <= MAX_COORD,
                0 < bounds.y <= MAX_COORD,
                count > 0,
                n < count,
            ensures
                pts@.len() == n + 1,
                pts@.no_duplicates(),
                forall|i: int| 0 <= i < n + 1 ==> 0 <= (#[trigger] pts@[i]).x < bounds.x,
                forall|i: int| 0 <= i < n + 1 ==> 0 <= (#[trigger] pts@[i]).y < bounds.y,
            decreases RETRY_BUDGET - tries,
        {
            let p = draw_point(bounds, rng);
            if !contains(&p, &pts) {
                proof {
                    assert forall|a: int, b: int|
                        0 <= a < b < pts@.push(p).len() && pts@.push(p)[a] == pts@.push(
                            p,
                        )[b] implies false by {
                        if b < pts@.len() {
                        } else {
                            assert(pts@.contains(pts@[a]));
                        }
                    }
                }
                pts.push(p);
                break ;
            }
            tries = tries + 1;
            if tries == RETRY_BUDGET {
                return Err(GenError::PointSetExhausted);
            }
        }
        n = n + 1;
    }
    let mut sorted = sort_by_y(&pts);
    proof {
        broadcast use vstd::seq_lib::group_to_multiset_ensures;

        pts@.lemma_multiset_has_no_duplicates();
        sorted@.lemma_multiset_has_no_duplicates_conv();
        assert forall|i: int| 0 <= i < sorted@.len() implies 0 <= (#[trigger] sorted@[i]).x
            < bounds.x && 0 <= sorted@[i].y < bounds.y by {
            let v = sorted@[i];
            assert(sorted@.contains(v));
            assert(sorted@.to_multiset().count(v) > 0);
            assert(pts@.to_multiset().count(v) > 0);
            assert(pts@.contains(v));
            let j = choose|j: int| 0 <= j < pts@.len() && pts@[j] == v;
            assert(0 <= j < pts@.len() && pts@[j] == v);
        }
    }
    if sorted.len() >= 2 {
        let last = sorted.len() - 1;
        let secondlast = sorted.len() - 2;
        let biggest = sorted[last].y;
        let maybe_also_biggest = sorted[secondlast].y;
        if biggest - maybe_also_biggest < 1 {
            let lp = sorted[last];
            sorted[last] = Pos { x: lp.x, y: biggest + 1 };
            proof {
                assert forall|a: int, b: int|
                    0 <= a < b < sorted@.len() && sorted@[a] == sorted@[b] implies false by {
                    if b == last {
                        assert(sorted@[a].y <= maybe_also_biggest);
                    }
                }
            }
        }
    }
    Ok(sorted)
}

} // verus!
