//! Assembly of the dual graph pair from a polygon list.
//!
//! Three passes mirror the construction:
//! - pass A walks every polygon ring, deduplicates corner vertices into
//!   border nodes, builds one region node per polygon (its `borders` list in
//!   walk order and its vertex centroid), and one border edge per distinct
//!   wall segment, recording which regions touch it;
//! - pass B adds one region edge per border edge touched by exactly two
//!   distinct regions, refusing walls touched three times or region pairs
//!   that share two walls;
//! - pass C points each such border edge back at its region edge.

use vstd::prelude::*;
use std::collections::HashMap;
use crate::geom::{GenError, Pos, pos_ok, MAX_COORD, MAX_RING};
use crate::graph::{connects, edges_in_range, no_parallel_edges, GraphEdge, UnGraph};
use crate::rng::RandomSource;
use crate::tess::{polys_seq, poly_ok, wf_polys};
use crate::relax::gen_voronoi;

verus! {

/// A corner vertex of the tessellation: the regions incident to it, its
/// coordinate, and a caller-supplied payload.
pub struct BorderNode<T = ()> {
    pub regions: Vec<usize>,
    pub pos: Pos,
    pub value: T,
}

/// A wall segment between two border nodes: the regions on its sides (one
/// for a hull wall, two for an interior wall) and, once linked, the index of
/// the dual region edge.
pub struct BorderEdge {
    pub region_edge: Option<usize>,
    pub regions: Vec<usize>,
}

/// A cell of the tessellation: its border nodes in walk order, its vertex
/// centroid, and a caller-supplied payload.
pub struct RegionNode<T = ()> {
    pub borders: Vec<usize>,
    pub pos: Pos,
    pub value: T,
}

/// An adjacency between two regions: the two border nodes of the wall it
/// crosses and the index of that dual border edge.
pub struct RegionEdge {
    pub border_edge: Option<usize>,
    pub borders: Vec<usize>,
}

/// The region graph: cells as nodes, adjacencies as edges.
pub type RegionGraph<T = ()> = UnGraph<RegionNode<T>, RegionEdge>;

/// The border graph: cell corners as nodes, walls as edges.
pub type BorderGraph<T = ()> = UnGraph<BorderNode<T>, BorderEdge>;

impl<T> RegionNode<T> {
    /// Read access to the payload.
    pub fn value(&self) -> (r: &T)
        ensures
            *r == self.value,
    {
        &self.value
    }

    /// Write access to the payload; only the payload can change through it.
    pub fn value_mut(&mut self) -> (r: &mut T)
        ensures
            *r == old(self).value,
            final(self).value == *final(r),
            final(self).borders == old(self).borders,
            final(self).pos == old(self).pos,
    {
        &mut self.value
    }
}

impl<T> BorderNode<T> {
    /// Read access to the payload.
    pub fn value(&self) -> (r: &T)
        ensures
            *r == self.value,
    {
        &self.value
    }

    /// Write access to the payload; only the payload can change through it.
    pub fn value_mut(&mut self) -> (r: &mut T)
        ensures
            *r == old(self).value,
            final(self).value == *final(r),
            final(self).regions == old(self).regions,
            final(self).pos == old(self).pos,
    {
        &mut self.value
    }
}

/// Two 32-bit values packed into one lookup key.
pub open spec fn pack2(hi: u64, lo: u64) -> u64 {
    (hi << 32u64) | lo
}

/// The lookup key of a coordinate pair.
pub open spec fn pos_key_spec(p: Pos) -> u64
    recommends
        pos_ok(p),
{
    pack2(p.x as u64, p.y as u64)
}

/// The lookup key of an unordered index pair.
pub open spec fn pair_key_spec(a: usize, b: usize) -> u64 {
    if a <= b {
        pack2(a as u64, b as u64)
    } else {
        pack2(b as u64, a as u64)
    }
}

proof fn lemma_pack2_injective(h1: u64, l1: u64, h2: u64, l2: u64)
    requires
        h1 < 0x1_0000_0000,
        l1 < 0x1_0000_0000,
        h2 < 0x1_0000_0000,
        l2 < 0x1_0000_0000,
        pack2(h1, l1) == pack2(h2, l2),
    ensures
        h1 == h2 && l1 == l2,
{
    assert((h1 << 32u64) | l1 == (h2 << 32u64) | l2 && h1 < 0x1_0000_0000 && l1 < 0x1_0000_0000
        && h2 < 0x1_0000_0000 && l2 < 0x1_0000_0000 ==> h1 == h2 && l1 == l2) by (bit_vector);
}

proof fn lemma_pos_key_injective(p: Pos, q: Pos)
    requires
        pos_ok(p),
        pos_ok(q),
        pos_key_spec(p) == pos_key_spec(q),
    ensures
        p == q,
{
    lemma_pack2_injective(p.x as u64, p.y as u64, q.x as u64, q.y as u64);
}

proof fn lemma_pair_key_injective(a1: usize, b1: usize, a2: usize, b2: usize)
    requires
        a1 < 0x1_0000_0000,
        b1 < 0x1_0000_0000,
        a2 < 0x1_0000_0000,
        b2 < 0x1_0000_0000,
        pair_key_spec(a1, b1) == pair_key_spec(a2, b2),
    ensures
        (a1 == a2 && b1 == b2) || (a1 == b2 && b1 == a2),
{
    if a1 <= b1 {
        if a2 <= b2 {
            lemma_pack2_injective(a1 as u64, b1 as u64, a2 as u64, b2 as u64);
        } else {
            lemma_pack2_injective(a1 as u64, b1 as u64, b2 as u64, a2 as u64);
        }
    } else {
        if a2 <= b2 {
            lemma_pack2_injective(b1 as u64, a1 as u64, a2 as u64, b2 as u64);
        } else {
            lemma_pack2_injective(b1 as u64, a1 as u64, b2 as u64, a2 as u64);
        }
    }
}

fn pos_key(p: Pos) -> (k: u64)
    requires
        pos_ok(p),
    ensures
        k == pos_key_spec(p),
{
    ((p.x as u64) << 32u64) | (p.y as u64)
}

fn pair_key(a: usize, b: usize) -> (k: u64)
    requires
        a < 0x1_0000_0000,
        b < 0x1_0000_0000,
    ensures
        k == pair_key_spec(a, b),
{
    if a <= b {
        ((a as u64) << 32u64) | (b as u64)
    } else {
        ((b as u64) << 32u64) | (a as u64)
    }
}

/// A hash map from packed keys to arena indices, used transiently during
/// assembly to deduplicate border nodes and wall segments.
struct IndexMap {
    m: HashMap<u64, usize>,
}

impl View for IndexMap {
    type V = Map<u64, usize>;

    closed spec fn view(&self) -> Map<u64, usize> {
        self.m@
    }
}

impl IndexMap {
    fn new() -> (r: Self)
        ensures
            r@ == Map::<u64, usize>::empty(),
    {
        IndexMap { m: HashMap::new() }
    }

    fn get(&self, k: u64) -> (r: Option<usize>)
        ensures
            r == if self@.contains_key(k) {
                Some(self@[k])
            } else {
                None::<usize>
            },
    {
        broadcast use vstd::std_specs::hash::group_hash_axioms;

        match self.m.get(&k) {
            Some(v) => Some(*v),
            None => None,
        }
    }

    fn insert(&mut self, k: u64, v: usize)
        ensures
            final(self)@ == old(self)@.insert(k, v),
    {
        broadcast use vstd::std_specs::hash::group_hash_axioms;

        self.m.insert(k, v);
    }
}

/// Whether `v` holds `x`.
fn contains_usize(v: &Vec<usize>, x: usize) -> (r: bool)
    ensures
        r == v@.contains(x),
{
    let mut i: usize = 0;
    while i < v.len()
        invariant
            i <= v@.len(),
            forall|j: int| 0 <= j < i ==> v@[j] != x,
        decreases v@.len() - i,
    {
        if v[i] == x {
            return true;
        }
        i = i + 1;
    }
    assert(!v@.contains(x));
    false
}

/// A copy of an index list.
fn clone_indices(v: &Vec<usize>) -> (r: Vec<usize>)
    ensures
        r@ == v@,
{
    let mut r: Vec<usize> = Vec::new();
    let mut i: usize = 0;
    while i < v.len()
        invariant
            i <= v@.len(),
            r@ =~= v@.subrange(0, i as int),
        decreases v@.len() - i,
    {
        r.push(v[i]);
        proof {
            assert(r@ =~= v@.subrange(0, i as int + 1));
        }
        i = i + 1;
    }
    proof {
        assert(v@.subrange(0, v@.len() as int) =~= v@);
    }
    r
}

/// Sum of the `x` coordinates of the positions selected by `borders`.
pub open spec fn sum_px(bpos: Seq<Pos>, borders: Seq<usize>) -> int
    decreases borders.len(),
{
    if borders.len() == 0 {
        0
    } else {
        sum_px(bpos, borders.drop_last()) + bpos[borders.last() as int].x
    }
}

/// Sum of the `y` coordinates of the positions selected by `borders`.
pub open spec fn sum_py(bpos: Seq<Pos>, borders: Seq<usize>) -> int
    decreases borders.len(),
{
    if borders.len() == 0 {
        0
    } else {
        sum_py(bpos, borders.drop_last()) + bpos[borders.last() as int].y
    }
}

proof fn lemma_sum_frame(b1: Seq<Pos>, b2: Seq<Pos>, borders: Seq<usize>)
    requires
        b1.len() <= b2.len(),
        forall|j: int| 0 <= j < b1.len() ==> b2[j] == b1[j],
        forall|k: int| 0 <= k < borders.len() ==> (#[trigger] borders[k]) < b1.len(),
    ensures
        sum_px(b2, borders) == sum_px(b1, borders),
        sum_py(b2, borders) == sum_py(b1, borders),
    decreases borders.len(),
{
    if borders.len() > 0 {
        lemma_sum_frame(b1, b2, borders.drop_last());
    }
}

/// Whether `p` is one of the corner coordinates of the polygon list.
pub open spec fn corner_of(p: Pos, ps: Seq<Seq<Pos>>) -> bool {
    exists|f: int, k: int|
        #![trigger ps[f][k]]
        0 <= f < ps.len() && 0 <= k < ps[f].len() && p == ps[f][k]
}

/// The coordinates of a border graph's nodes, by node index.
pub open spec fn border_positions<BV>(bg: BorderGraph<BV>) -> Seq<Pos> {
    bg.nodes@.map_values(|b: BorderNode<BV>| b.pos)
}

/// One region node is sound: a nonempty `borders` list of valid border-node
/// indices, with `pos` the rounded-down mean of those nodes' coordinates in
/// walk order.
pub open spec fn region_node_ok<RV>(n: RegionNode<RV>, bpos: Seq<Pos>) -> bool {
    &&& n.borders@.len() >= 1
    &&& forall|k: int| 0 <= k < n.borders@.len() ==> (#[trigger] n.borders@[k]) < bpos.len()
    &&& n.pos.x == sum_px(bpos, n.borders@) / n.borders@.len() as int
    &&& n.pos.y == sum_py(bpos, n.borders@) / n.borders@.len() as int
}

/// Every region's `borders` list and centroid are sound.
pub open spec fn region_nodes_ok<RV, BV>(rg: RegionGraph<RV>, bg: BorderGraph<BV>) -> bool {
    forall|r: int|
        0 <= r < rg.nodes@.len() ==> region_node_ok(#[trigger] rg.nodes@[r], border_positions(bg))
}

/// A border node lists a region exactly when that region lists the border
/// node: the bipartite incidence between the two graphs is symmetric.
pub open spec fn incidence_symmetric<RV, BV>(rg: RegionGraph<RV>, bg: BorderGraph<BV>) -> bool {
    forall|r: int, b: int|
        0 <= r < rg.nodes@.len() && 0 <= b < bg.nodes@.len() ==> ((#[trigger] rg.nodes@[r]).borders@.contains(
            b as usize,
        ) <==> (#[trigger] bg.nodes@[b]).regions@.contains(r as usize))
}

/// Region indices stored on border nodes and border edges are valid.
pub open spec fn border_side_indices_ok<RV, BV>(rg: RegionGraph<RV>, bg: BorderGraph<BV>) -> bool {
    &&& forall|b: int, k: int|
        0 <= b < bg.nodes@.len() && 0 <= k < bg.nodes@[b].regions@.len() ==> (
        #[trigger] bg.nodes@[b].regions@[k]) < rg.nodes@.len()
    &&& forall|j: int, k: int|
        0 <= j < bg.edges@.len() && 0 <= k < bg.edges@[j].weight.regions@.len() ==> (
        #[trigger] bg.edges@[j].weight.regions@[k]) < rg.nodes@.len()
}

/// One region edge is dual-linked: it names a border edge whose `regions`
/// are exactly its own two endpoints, whose `region_edge` points back at it,
/// and whose endpoints it records in `borders`.
pub open spec fn region_edge_linked(
    i: int,
    redges: Seq<GraphEdge<RegionEdge>>,
    bedges: Seq<GraphEdge<BorderEdge>>,
) -> bool {
    let e = redges[i];
    match e.weight.border_edge {
        Some(b) => {
            &&& (b as int) < bedges.len()
            &&& bedges[b as int].weight.region_edge == Some(i as usize)
            &&& bedges[b as int].weight.regions@.len() == 2
            &&& {
                let rs = bedges[b as int].weight.regions@;
                (e.source == rs[0] && e.target == rs[1]) || (e.source == rs[1] && e.target == rs[0])
            }
            &&& e.weight.borders@ == seq![bedges[b as int].source, bedges[b as int].target]
        },
        None => false,
    }
}

/// One border edge is dual-linked: touched by one region (a hull wall) it
/// has no dual, touched by two distinct regions it names a region edge that
/// points back at it.
pub open spec fn border_edge_linked(
    j: int,
    redges: Seq<GraphEdge<RegionEdge>>,
    bedges: Seq<GraphEdge<BorderEdge>>,
) -> bool {
    let e = bedges[j];
    &&& 1 <= e.weight.regions@.len() <= 2
    &&& if e.weight.regions@.len() == 2 {
        &&& e.weight.regions@[0] != e.weight.regions@[1]
        &&& match e.weight.region_edge {
            Some(r) => (r as int) < redges.len() && redges[r as int].weight.border_edge == Some(
                j as usize,
            ),
            None => false,
        }
    } else {
        e.weight.region_edge is None
    }
}

/// The number of interior border edges (walls with two regions).
pub open spec fn count_interior(bedges: Seq<GraphEdge<BorderEdge>>) -> int
    decreases bedges.len(),
{
    if bedges.len() == 0 {
        0
    } else {
        count_interior(bedges.drop_last()) + if bedges.last().weight.regions@.len() == 2 {
            1int
        } else {
            0int
        }
    }
}

/// A border-edge set on which dual linking must fail: a wall touched by
/// more than two regions or twice by the same region, or two walls between
/// the same pair of regions.
pub open spec fn degenerate_border_edges(bedges: Seq<GraphEdge<BorderEdge>>) -> bool {
    ||| exists|j: int|
        0 <= j < bedges.len() && (#[trigger] bedges[j]).weight.regions@.len() > 2
    ||| exists|j: int|
        0 <= j < bedges.len() && (#[trigger] bedges[j]).weight.regions@.len() == 2 && bedges[j].weight.regions@[0]
            == bedges[j].weight.regions@[1]
    ||| exists|i: int, j: int|
        0 <= i < j < bedges.len() && (#[trigger] bedges[i]).weight.regions@.len() == 2 && (
        #[trigger] bedges[j]).weight.regions@.len() == 2 && pair_key_spec(
            bedges[i].weight.regions@[0],
            bedges[i].weight.regions@[1],
        ) == pair_key_spec(bedges[j].weight.regions@[0], bedges[j].weight.regions@[1])
}

proof fn lemma_sum_push(bp: Seq<Pos>, borders: Seq<usize>, b: usize)
    requires
        (b as int) < bp.len(),
    ensures
        sum_px(bp, borders.push(b)) == sum_px(bp, borders) + bp[b as int].x,
        sum_py(bp, borders.push(b)) == sum_py(bp, borders) + bp[b as int].y,
{
    assert(borders.push(b).drop_last() =~= borders);
}

/// The vertex-to-border-node map agrees with the border-node arena in both
/// directions, so border nodes are exactly the distinct vertex coordinates.
pub open spec fn node_map_ok(m: Map<u64, usize>, bp: Seq<Pos>) -> bool {
    &&& forall|k: u64|
        m.contains_key(k) ==> (#[trigger] m[k]) < bp.len() && pos_key_spec(bp[m[k] as int]) == k
    &&& forall|b: int|
        0 <= b < bp.len() ==> pos_ok(#[trigger] bp[b]) && m.contains_key(pos_key_spec(bp[b]))
            && m[pos_key_spec(bp[b])] == b
}

/// The segment-to-border-edge map agrees with the edge arena in both
/// directions, so there is exactly one border edge per unordered segment.
pub open spec fn edge_map_ok(m: Map<u64, usize>, be: Seq<GraphEdge<BorderEdge>>) -> bool {
    &&& forall|k: u64|
        m.contains_key(k) ==> (#[trigger] m[k]) < be.len() && pair_key_spec(
            be[m[k] as int].source,
            be[m[k] as int].target,
        ) == k
    &&& forall|e: int|
        0 <= e < be.len() ==> m.contains_key(
            pair_key_spec((#[trigger] be[e]).source, be[e].target),
        ) && m[pair_key_spec(be[e].source, be[e].target)] == e
}

/// Every edge endpoint fits the packed key space.
pub open spec fn edge_endpoints_small(be: Seq<GraphEdge<BorderEdge>>, bp_len: int) -> bool {
    forall|j: int|
        0 <= j < be.len() ==> (#[trigger] be[j]).source < bp_len && be[j].target < bp_len
}

fn get_or_insert_border_node(
    border_node_map: &mut IndexMap,
    border_pos: &mut Vec<Pos>,
    border_regions: &mut Vec<Vec<usize>>,
    pos: Pos,
) -> (bn: usize)
    requires
        pos_ok(pos),
        node_map_ok(old(border_node_map)@, old(border_pos)@),
        old(border_pos)@.len() == old(border_regions)@.len(),
        old(border_pos)@.len() < 0x1_0000_0000,
    ensures
        node_map_ok(final(border_node_map)@, final(border_pos)@),
        final(border_pos)@.len() == final(border_regions)@.len(),
        bn < final(border_pos)@.len(),
        final(border_pos)@[bn as int] == pos,
        old(border_pos)@.len() <= final(border_pos)@.len() <= old(border_pos)@.len() + 1,
        forall|j: int|
            0 <= j < old(border_pos)@.len() ==> final(border_pos)@[j] == old(border_pos)@[j]
                && final(border_regions)@[j] == old(border_regions)@[j],
        final(border_pos)@.len() > old(border_pos)@.len() ==> bn == old(border_pos)@.len() && (
        final(border_regions)@[bn as int])@.len() == 0,
        (exists|j: int| 0 <= j < old(border_pos)@.len() && old(border_pos)@[j] == pos)
            ==> final(border_pos)@ == old(border_pos)@ && final(border_regions)@ == old(
            border_regions)@,
        !(exists|j: int| 0 <= j < old(border_pos)@.len() && old(border_pos)@[j] == pos)
            ==> final(border_pos)@ == old(border_pos)@.push(pos),
{
    let k = pos_key(pos);
    match border_node_map.get(k) {
        Some(bn) => {
            proof {
                lemma_pos_key_injective(border_pos@[bn as int], pos);
                assert(exists|j: int|
                    0 <= j < border_pos@.len() && border_pos@[j] == pos) by {
                    assert(border_pos@[bn as int] == pos);
                }
            }
            bn
        },
        None => {
            proof {
                assert forall|j: int| 0 <= j < border_pos@.len() implies border_pos@[j] != pos by {
                    if border_pos@[j] == pos {
                        assert(border_node_map@.contains_key(pos_key_spec(border_pos@[j])));
                    }
                }
            }
            let bn = border_pos.len();
            border_pos.push(pos);
            border_regions.push(Vec::new());
            border_node_map.insert(k, bn);
            proof {
                assert forall|b: int|
                    0 <= b < border_pos@.len() implies pos_ok(#[trigger] border_pos@[b])
                    && border_node_map@.contains_key(pos_key_spec(border_pos@[b]))
                    && border_node_map@[pos_key_spec(border_pos@[b])] == b by {
                    if b < bn {
                        if pos_key_spec(border_pos@[b]) == k {
                            lemma_pos_key_injective(border_pos@[b], pos);
                        }
                    }
                }
            }
            bn
        },
    }
}

fn find_or_insert_border_edge(
    edge_map: &mut IndexMap,
    border_edges: &mut Vec<GraphEdge<BorderEdge>>,
    a: usize,
    b: usize,
) -> (e: usize)
    requires
        a < 0x1_0000_0000,
        b < 0x1_0000_0000,
        edge_map_ok(old(edge_map)@, old(border_edges)@),
        edge_endpoints_small(old(border_edges)@, 0x1_0000_0000),
    ensures
        edge_map_ok(final(edge_map)@, final(border_edges)@),
        edge_endpoints_small(final(border_edges)@, 0x1_0000_0000),
        e < final(border_edges)@.len(),
        connects(final(border_edges)@[e as int], a as int, b as int),
        old(border_edges)@.len() <= final(border_edges)@.len() <= old(border_edges)@.len() + 1,
        forall|j: int|
            0 <= j < old(border_edges)@.len() ==> final(border_edges)@[j] == old(border_edges)@[j],
        final(border_edges)@.len() > old(border_edges)@.len() ==> e == old(border_edges)@.len()
            && final(border_edges)@[e as int].source == a && final(border_edges)@[e as int].target
            == b && final(border_edges)@[e as int].weight.regions@.len() == 0
            && final(border_edges)@[e as int].weight.region_edge is None,
        (exists|i: int|
            0 <= i < old(border_edges)@.len() && connects(
                #[trigger] old(border_edges)@[i],
                a as int,
                b as int,
            )) ==> final(border_edges)@ == old(border_edges)@,
        !(exists|i: int|
            0 <= i < old(border_edges)@.len() && connects(
                #[trigger] old(border_edges)@[i],
                a as int,
                b as int,
            )) ==> final(border_edges)@.len() == old(border_edges)@.len() + 1,
{
    let k = pair_key(a, b);
    match edge_map.get(k) {
        Some(e) => {
            proof {
                let ed = border_edges@[e as int];
                lemma_pair_key_injective(ed.source, ed.target, a, b);
                assert(exists|i: int|
                    0 <= i < border_edges@.len() && connects(
                        #[trigger] border_edges@[i],
                        a as int,
                        b as int,
                    )) by {
                    assert(connects(border_edges@[e as int], a as int, b as int));
                }
            }
            e
        },
        None => {
            proof {
                assert forall|i: int|
                    0 <= i < border_edges@.len() implies !connects(
                    #[trigger] border_edges@[i],
                    a as int,
                    b as int,
                ) by {
                    if connects(border_edges@[i], a as int, b as int) {
                        assert(pair_key_spec(border_edges@[i].source, border_edges@[i].target)
                            == pair_key_spec(a, b));
                        assert(edge_map@.contains_key(
                            pair_key_spec(border_edges@[i].source, border_edges@[i].target),
                        ));
                    }
                }
            }
            let e = border_edges.len();
            border_edges.push(
                GraphEdge {
                    source: a,
                    target: b,
                    weight: BorderEdge { region_edge: None, regions: Vec::new() },
                },
            );
            edge_map.insert(k, e);
            proof {
                assert forall|i: int|
                    0 <= i < border_edges@.len() implies edge_map@.contains_key(
                    pair_key_spec((#[trigger] border_edges@[i]).source, border_edges@[i].target),
                ) && edge_map@[pair_key_spec(border_edges@[i].source, border_edges@[i].target)]
                    == i by {
                    if i < e {
                        if pair_key_spec(border_edges@[i].source, border_edges@[i].target) == k {
                            lemma_pair_key_injective(
                                border_edges@[i].source,
                                border_edges@[i].target,
                                a,
                                b,
                            );
                        }
                    }
                }
            }
            e
        },
    }
}

/// Everything a fully built dual graph pair satisfies.
pub open spec fn dual_graphs_wf<RV, BV>(rg: RegionGraph<RV>, bg: BorderGraph<BV>) -> bool {
    &&& edges_in_range(rg)
    &&& edges_in_range(bg)
    &&& no_parallel_edges(rg)
    &&& no_parallel_edges(bg)
    &&& region_nodes_ok(rg, bg)
    &&& incidence_symmetric(rg, bg)
    &&& border_side_indices_ok(rg, bg)
    &&& forall|i: int| 0 <= i < rg.edges@.len() ==> region_edge_linked(i, rg.edges@, bg.edges@)
    &&& forall|j: int| 0 <= j < bg.edges@.len() ==> border_edge_linked(j, rg.edges@, bg.edges@)
    &&& rg.edges@.len() == count_interior(bg.edges@)
}

proof fn lemma_push_contains(s: Seq<usize>, x: usize, y: usize)
    ensures
        s.push(x).contains(y) <==> (s.contains(y) || y == x),
{
    if s.contains(y) {
        let i = choose|i: int| 0 <= i < s.len() && s[i] == y;
        assert(s.push(x)[i] == y);
    }
    if y == x {
        assert(s.push(x)[s.len() as int] == y);
    }
    if s.push(x).contains(y) {
        let i = choose|i: int| 0 <= i < s.push(x).len() && s.push(x)[i] == y;
        if i < s.len() {
            assert(s[i] == y);
        }
    }
}

/// The raw material of the two graphs after the face walk: per region its
/// border list and centroid, per border node its coordinate and incident
/// regions, and the deduplicated border edges (not yet dual-linked).
pub struct Incidence {
    pub region_borders: Vec<Vec<usize>>,
    pub region_pos: Vec<Pos>,
    pub border_pos: Vec<Pos>,
    pub border_regions: Vec<Vec<usize>>,
    pub border_edges: Vec<GraphEdge<BorderEdge>>,
}

/// Region lists and centroids of the first `f` polygons are sound.
pub open spec fn regions_ok(
    rb: Seq<Vec<usize>>,
    rp: Seq<Pos>,
    bp: Seq<Pos>,
    polys: Seq<Seq<Pos>>,
    f: int,
) -> bool {
    &&& forall|r: int| 0 <= r < f ==> (#[trigger] rb[r])@.len() == polys[r].len()
    &&& forall|r: int, k: int|
        0 <= r < f && 0 <= k < rb[r]@.len() ==> (#[trigger] rb[r]@[k]) < bp.len()
    &&& forall|r: int|
        0 <= r < f ==> (#[trigger] rp[r]).x == sum_px(bp, rb[r]@) / rb[r]@.len() as int && rp[r].y
            == sum_py(bp, rb[r]@) / rb[r]@.len() as int
}

/// Incidence symmetry between the first `f` region lists and the border
/// nodes' region lists.
pub open spec fn sym_acc(rb: Seq<Vec<usize>>, br: Seq<Vec<usize>>, f: int) -> bool {
    &&& forall|r: int, b: usize|
        0 <= r < f && #[trigger] rb[r]@.contains(b) ==> (b as int) < br.len() && br[b as int]@.contains(
            r as usize,
        )
    &&& forall|b: int, r: usize|
        0 <= b < br.len() && #[trigger] br[b]@.contains(r) ==> (r as int) < f && rb[r as int]@.contains(
            b as usize,
        )
}

/// Incidence symmetry in the middle of walking face `f`, whose border list
/// so far is `cur`.
spec fn sym_mid(rb: Seq<Vec<usize>>, br: Seq<Vec<usize>>, cur: Seq<usize>, f: usize) -> bool {
    &&& forall|r: int, b: usize|
        0 <= r < f && #[trigger] rb[r]@.contains(b) ==> (b as int) < br.len() && br[b as int]@.contains(
            r as usize,
        )
    &&& forall|b: int, r: usize|
        0 <= b < br.len() && #[trigger] br[b]@.contains(r) ==> ((r as int) < f && rb[r as int]@.contains(
            b as usize,
        )) || (r == f && cur.contains(b as usize))
    &&& forall|b: usize|
        #[trigger] cur.contains(b) ==> (b as int) < br.len() && br[b as int]@.contains(f)
}

/// Structural soundness of the accumulated border edges.
pub open spec fn edges_acc_ok(be: Seq<GraphEdge<BorderEdge>>, bp_len: int) -> bool {
    forall|j: int|
        0 <= j < be.len() ==> (#[trigger] be[j]).source < bp_len && be[j].target < bp_len
            && be[j].weight.region_edge is None && be[j].weight.regions@.len() >= 1
}

/// Region indices on border edges are below `rcount`.
pub open spec fn edge_regions_bound(be: Seq<GraphEdge<BorderEdge>>, rcount: int) -> bool {
    forall|j: int, k: int|
        0 <= j < be.len() && 0 <= k < be[j].weight.regions@.len() ==> (
        #[trigger] be[j].weight.regions@[k]) < rcount
}

/// Total number of ring steps in the first `f` polygons.
pub open spec fn len_sum(ps: Seq<Seq<Pos>>, f: int) -> int
    decreases f,
{
    if f <= 0 {
        0
    } else {
        len_sum(ps, f - 1) + ps[f - 1].len()
    }
}

proof fn lemma_len_sum_mono(ps: Seq<Seq<Pos>>, a: int, b: int)
    requires
        0 <= a <= b,
    ensures
        len_sum(ps, a) <= len_sum(ps, b),
    decreases b,
{
    if a < b {
        lemma_len_sum_mono(ps, a, b - 1);
    }
}

/// Whether the polygon list's total ring-step count stays within the
/// index space pass A packs its lookup keys into.
fn check_len_sum(polys: &Vec<Vec<Pos>>) -> (r: bool)
    requires
        wf_polys(polys_seq(*polys)),
    ensures
        r == (len_sum(polys_seq(*polys), polys_seq(*polys).len() as int) <= 0x7fff_ffff),
{
    let ghost ps = polys_seq(*polys);
    let mut sum: u64 = 0;
    let mut i: usize = 0;
    while i < polys.len()
        invariant
            i <= polys@.len(),
            ps == polys_seq(*polys),
            ps.len() == polys@.len(),
            wf_polys(ps),
            sum == len_sum(ps, i as int),
            sum <= 0x7fff_ffff,
        decreases polys@.len() - i,
    {
        let n = polys[i].len();
        proof {
            assert(ps[i as int] == polys@[i as int]@);
            assert(poly_ok(ps[i as int]));
        }
        sum = sum + (n as u64);
        i = i + 1;
        if sum > 0x7fff_ffff {
            proof {
                lemma_len_sum_mono(ps, i as int, ps.len() as int);
            }
            return false;
        }
    }
    true
}

/// Everything pass A promises of its accumulators.
pub open spec fn incidence_ok(inc: Incidence, polys: Seq<Seq<Pos>>) -> bool {
    &&& inc.region_borders@.len() == polys.len()
    &&& inc.region_pos@.len() == polys.len()
    &&& inc.border_pos@.len() == inc.border_regions@.len()
    &&& inc.border_pos@.len() <= 0x1_0000_0000
    &&& polys.len() <= 0x1_0000_0000
    &&& regions_ok(inc.region_borders@, inc.region_pos@, inc.border_pos@, polys, polys.len() as int)
    &&& sym_acc(inc.region_borders@, inc.border_regions@, polys.len() as int)
    &&& forall|b: int| 0 <= b < inc.border_pos@.len() ==> pos_ok(#[trigger] inc.border_pos@[b])
    &&& forall|b1: int, b2: int|
        0 <= b1 < b2 < inc.border_pos@.len() ==> inc.border_pos@[b1] != inc.border_pos@[b2]
    &&& forall|b: int| 0 <= b < inc.border_pos@.len() ==> corner_of(#[trigger] inc.border_pos@[b], polys)
    &&& edges_acc_ok(inc.border_edges@, inc.border_pos@.len() as int)
    &&& edge_regions_bound(inc.border_edges@, polys.len() as int)
    &&& forall|i: int, j: int|
        0 <= i < j < inc.border_edges@.len() ==> !connects(
            #[trigger] inc.border_edges@[i],
            (#[trigger] inc.border_edges@[j]).source as int,
            inc.border_edges@[j].target as int,
        )
}

/// Pass A: walks every polygon ring once, deduplicating corner vertices
/// into border nodes and wall segments into border edges, and building each
/// region's border list and centroid.  The preconditions bound the polygon
/// and step counts so every arena index fits the packed key space, making
/// the walk total.
pub fn build_incidence(polys: &Vec<Vec<Pos>>) -> (inc: Incidence)
    requires
        wf_polys(polys_seq(*polys)),
        polys@.len() <= 0x1_0000_0000,
        len_sum(polys_seq(*polys), polys_seq(*polys).len() as int) <= 0x7fff_ffff,
    ensures
        incidence_ok(inc, polys_seq(*polys)),
{
    let ghost ps = polys_seq(*polys);
    let mut region_borders: Vec<Vec<usize>> = Vec::new();
    let mut region_pos: Vec<Pos> = Vec::new();
    let mut border_pos: Vec<Pos> = Vec::new();
    let mut border_regions: Vec<Vec<usize>> = Vec::new();
    let mut border_edges: Vec<GraphEdge<BorderEdge>> = Vec::new();
    let mut node_map = IndexMap::new();
    let mut edge_map = IndexMap::new();
    let mut f: usize = 0;
    while f < polys.len()
        invariant
            f <= polys@.len(),
            ps == polys_seq(*polys),
            wf_polys(ps),
            ps.len() == polys@.len(),
            polys@.len() <= 0x1_0000_0000,
            region_borders@.len() == f,
            region_pos@.len() == f,
            border_pos@.len() == border_regions@.len(),
            border_pos@.len() <= 0x1_0000_0000,
            border_pos@.len() <= 2 * len_sum(ps, f as int),
            len_sum(ps, ps.len() as int) <= 0x7fff_ffff,
            node_map_ok(node_map@, border_pos@),
            edge_map_ok(edge_map@, border_edges@),
            regions_ok(region_borders@, region_pos@, border_pos@, ps, f as int),
            sym_acc(region_borders@, border_regions@, f as int),
            edges_acc_ok(border_edges@, border_pos@.len() as int),
            edge_regions_bound(border_edges@, f as int),
            forall|b: int| 0 <= b < border_pos@.len() ==> corner_of(#[trigger] border_pos@[b], ps),
        decreases polys@.len() - f,
    {
        let poly = &polys[f];
        let n = poly.len();
        proof {
            assert(ps[f as int] == poly@);
            assert(poly_ok(ps[f as int]));
        }
        let mut borders: Vec<usize> = Vec::new();
        let mut sx: u64 = 0;
        let mut sy: u64 = 0;
        let mut k: usize = 0;
        while k < n
            invariant
                k <= n,
                n == poly@.len(),
                1 <= n <= MAX_RING,
                0 <= f < ps.len(),
                poly@ == ps[f as int],
                ps == polys_seq(*polys),
                wf_polys(ps),
                ps.len() == polys@.len(),
                polys@.len() <= 0x1_0000_0000,
                region_borders@.len() == f,
                region_pos@.len() == f,
                border_pos@.len() == border_regions@.len(),
                border_pos@.len() <= 0x1_0000_0000,
                border_pos@.len() <= 2 * (len_sum(ps, f as int) + k),
                len_sum(ps, ps.len() as int) <= 0x7fff_ffff,
                node_map_ok(node_map@, border_pos@),
                edge_map_ok(edge_map@, border_edges@),
                regions_ok(region_borders@, region_pos@, border_pos@, ps, f as int),
                sym_mid(region_borders@, border_regions@, borders@, f),
                edges_acc_ok(border_edges@, border_pos@.len() as int),
                edge_regions_bound(border_edges@, f as int + 1),
                forall|b: int|
                    0 <= b < border_pos@.len() ==> corner_of(#[trigger] border_pos@[b], ps),
                borders@.len() == k,
                forall|t: int| 0 <= t < k ==> (#[trigger] borders@[t]) < border_pos@.len(),
                sx == sum_px(border_pos@, borders@),
                sy == sum_py(border_pos@, borders@),
                sx <= k * MAX_COORD,
                sy <= k * MAX_COORD,
            decreases n - k,
        {
            let prev_v = poly[k];
            let curr_v = poly[
                if k + 1 == n {
                    0
                } else {
                    k + 1
                }
            ];
            proof {
                assert(len_sum(ps, f as int + 1) == len_sum(ps, f as int) + ps[f as int].len());
                lemma_len_sum_mono(ps, f as int + 1, ps.len() as int);
                assert(border_pos@.len() + 2 <= 0x1_0000_0000);
            }
            let ghost bp0 = border_pos@;
            let ghost br0 = border_regions@;
            let curr_bn = get_or_insert_border_node(
                &mut node_map,
                &mut border_pos,
                &mut border_regions,
                curr_v,
            );
            let ghost bp1 = border_pos@;
            let prev_bn = get_or_insert_border_node(
                &mut node_map,
                &mut border_pos,
                &mut border_regions,
                prev_v,
            );
            proof {
                let ci: int = if k + 1 == n {
                    0int
                } else {
                    k as int + 1
                };
                assert(corner_of(curr_v, ps)) by {
                    assert(ps[f as int][ci] == curr_v);
                }
                assert(corner_of(prev_v, ps)) by {
                    assert(ps[f as int][k as int] == prev_v);
                }
                assert forall|b: int| 0 <= b < border_pos@.len() implies corner_of(
                    #[trigger] border_pos@[b],
                    ps,
                ) by {
                    if b >= bp0.len() {
                        assert(border_pos@[b] == curr_v || border_pos@[b] == prev_v);
                    }
                }
            }
            proof {
                assert forall|r: int| 0 <= r < f implies (#[trigger] region_pos@[r]).x == sum_px(
                    border_pos@,
                    region_borders@[r]@,
                ) / region_borders@[r]@.len() as int && region_pos@[r].y == sum_py(
                    border_pos@,
                    region_borders@[r]@,
                ) / region_borders@[r]@.len() as int by {
                    lemma_sum_frame(bp0, border_pos@, region_borders@[r]@);
                }
                lemma_sum_frame(bp0, border_pos@, borders@);
            }
            let ghost borders0 = borders@;
            borders.push(curr_bn);
            proof {
                lemma_sum_push(border_pos@, borders0, curr_bn);
            }
            sx = sx + (curr_v.x as u64);
            sy = sy + (curr_v.y as u64);
            let already = contains_usize(&border_regions[curr_bn], f);
            let ghost brmid = border_regions@;
            if !already {
                let mut lst = clone_indices(&border_regions[curr_bn]);
                lst.push(f);
                border_regions[curr_bn] = lst;
            }
            proof {
                assert forall|b: int, r: usize|
                    0 <= b < border_regions@.len() && #[trigger] border_regions@[b]@.contains(
                        r,
                    ) implies ((r as int) < f && region_borders@[r as int]@.contains(b as usize))
                    || (r == f && borders@.contains(b as usize)) by {
                    lemma_push_contains(borders0, curr_bn, b as usize);
                    if b == curr_bn && !already {
                        lemma_push_contains(brmid[b]@, f, r);
                    }
                }
                assert forall|b: usize| #[trigger] borders@.contains(b) implies (b as int)
                    < border_regions@.len() && border_regions@[b as int]@.contains(f) by {
                    lemma_push_contains(borders0, curr_bn, b);
                    if b == curr_bn && !already {
                        lemma_push_contains(brmid[b as int]@, f, f);
                    }
                }
                assert forall|r: int, b: usize|
                    0 <= r < f && #[trigger] region_borders@[r]@.contains(b) implies (b as int)
                    < border_regions@.len() && border_regions@[b as int]@.contains(r as usize) by {
                    if b == curr_bn && !already {
                        lemma_push_contains(brmid[b as int]@, f, r as usize);
                    }
                }
            }
            proof {
                assert(edge_endpoints_small(border_edges@, 0x1_0000_0000));
            }
            let eidx = find_or_insert_border_edge(
                &mut edge_map,
                &mut border_edges,
                curr_bn,
                prev_bn,
            );
            let esrc = border_edges[eidx].source;
            let etgt = border_edges[eidx].target;
            let mut regs = clone_indices(&border_edges[eidx].weight.regions);
            regs.push(f);
            let ghost bemid = border_edges@;
            border_edges[eidx] = GraphEdge {
                source: esrc,
                target: etgt,
                weight: BorderEdge { region_edge: None, regions: regs },
            };
            proof {
                assert forall|e: int|
                    0 <= e < border_edges@.len() implies edge_map@.contains_key(
                    pair_key_spec((#[trigger] border_edges@[e]).source, border_edges@[e].target),
                ) && edge_map@[pair_key_spec(border_edges@[e].source, border_edges@[e].target)]
                    == e by {
                    assert(border_edges@[e].source == bemid[e].source && border_edges@[e].target
                        == bemid[e].target);
                }
            }
            k = k + 1;
        }
        proof {
            assert(sx / (n as u64) <= MAX_COORD as u64 && sy / (n as u64) <= MAX_COORD
                as u64) by (nonlinear_arith)
                requires
                    sx <= n * MAX_COORD,
                    sy <= n * MAX_COORD,
                    n >= 1,
                    MAX_COORD == 0x7fff_ffff,
            {}
        }
        let cx = sx / (n as u64);
        let cy = sy / (n as u64);
        region_pos.push(Pos { x: cx as i64, y: cy as i64 });
        region_borders.push(borders);
        proof {
            assert(region_borders@[f as int]@.len() == ps[f as int].len());
            assert forall|r: int, b: usize|
                0 <= r < f + 1 && #[trigger] region_borders@[r]@.contains(b) implies (b as int)
                < border_regions@.len() && border_regions@[b as int]@.contains(r as usize) by {}
            assert forall|b: int, r: usize|
                0 <= b < border_regions@.len() && #[trigger] border_regions@[b]@.contains(
                    r,
                ) implies (r as int) < f + 1 && region_borders@[r as int]@.contains(
                b as usize,
            ) by {}
        }
        f = f + 1;
    }
    let inc = Incidence { region_borders, region_pos, border_pos, border_regions, border_edges };
    proof {
        assert forall|b1: int, b2: int|
            0 <= b1 < b2 < inc.border_pos@.len() implies inc.border_pos@[b1]
            != inc.border_pos@[b2] by {
            if inc.border_pos@[b1] == inc.border_pos@[b2] {
                assert(node_map@[pos_key_spec(inc.border_pos@[b1])] == b1);
                assert(node_map@[pos_key_spec(inc.border_pos@[b2])] == b2);
            }
        }
        assert forall|i: int, j: int|
            0 <= i < j < inc.border_edges@.len() implies !connects(
            #[trigger] inc.border_edges@[i],
            (#[trigger] inc.border_edges@[j]).source as int,
            inc.border_edges@[j].target as int,
        ) by {
            let ei = inc.border_edges@[i];
            let ej = inc.border_edges@[j];
            if connects(ei, ej.source as int, ej.target as int) {
                assert(pair_key_spec(ei.source, ei.target) == pair_key_spec(ej.source, ej.target));
                assert(edge_map@[pair_key_spec(ei.source, ei.target)] == i);
                assert(edge_map@[pair_key_spec(ej.source, ej.target)] == j);
            }
        }
    }
    inc
}

/// The border edge a region edge is dual to, as an index (`-1` when unset).
pub open spec fn bedge_of(e: GraphEdge<RegionEdge>) -> int {
    match e.weight.border_edge {
        Some(b) => b as int,
        None => -1,
    }
}

spec fn redge_acc_ok(
    e: GraphEdge<RegionEdge>,
    be0: Seq<GraphEdge<BorderEdge>>,
    upto: int,
    nregions: int,
) -> bool {
    match e.weight.border_edge {
        Some(b) => {
            &&& (b as int) < upto <= be0.len()
            &&& be0[b as int].weight.regions@.len() == 2
            &&& {
                let rs = be0[b as int].weight.regions@;
                (e.source == rs[0] && e.target == rs[1]) || (e.source == rs[1] && e.target == rs[0])
            }
            &&& e.weight.borders@ == seq![be0[b as int].source, be0[b as int].target]
            &&& e.source < nregions && e.target < nregions && e.source != e.target
        },
        None => false,
    }
}

proof fn lemma_count_interior_congruent(a: Seq<GraphEdge<BorderEdge>>, b: Seq<GraphEdge<BorderEdge>>)
    requires
        a.len() == b.len(),
        forall|j: int|
            0 <= j < a.len() ==> (#[trigger] a[j]).weight.regions@.len()
                == b[j].weight.regions@.len(),
    ensures
        count_interior(a) == count_interior(b),
    decreases a.len(),
{
    if a.len() > 0 {
        lemma_count_interior_congruent(a.drop_last(), b.drop_last());
    }
}

/// Passes B and C: adds one region edge per wall with exactly two distinct
/// regions, then points each such wall back at its region edge.  Fails with
/// `InvariantViolation` exactly when the border edges are degenerate in the
/// sense of [`degenerate_border_edges`]; the border edges are then left
/// unchanged.
pub fn link_duals(bedges: &mut Vec<GraphEdge<BorderEdge>>, nregions: usize) -> (r: Result<
    Vec<GraphEdge<RegionEdge>>,
    GenError,
>)
    requires
        nregions <= 0x1_0000_0000,
        forall|j: int|
            0 <= j < old(bedges)@.len() ==> (#[trigger] old(bedges)@[j]).weight.region_edge is None
                && old(bedges)@[j].weight.regions@.len() >= 1,
        edge_regions_bound(old(bedges)@, nregions as int),
    ensures
        (r is Err) <==> degenerate_border_edges(old(bedges)@),
        match r {
            Ok(redges) => {
                &&& final(bedges)@.len() == old(bedges)@.len()
                &&& forall|j: int|
                    0 <= j < old(bedges)@.len() ==> (#[trigger] final(bedges)@[j]).source
                        == old(bedges)@[j].source && final(bedges)@[j].target
                        == old(bedges)@[j].target && final(bedges)@[j].weight.regions@
                        == old(bedges)@[j].weight.regions@
                &&& forall|i: int|
                    0 <= i < redges@.len() ==> region_edge_linked(i, redges@, final(bedges)@)
                &&& forall|j: int|
                    0 <= j < final(bedges)@.len() ==> border_edge_linked(j, redges@, final(bedges)@)
                &&& redges@.len() == count_interior(final(bedges)@)
                &&& forall|i: int, j: int|
                    0 <= i < j < redges@.len() ==> !connects(
                        #[trigger] redges@[i],
                        (#[trigger] redges@[j]).source as int,
                        redges@[j].target as int,
                    )
                &&& forall|i: int|
                    0 <= i < redges@.len() ==> (#[trigger] redges@[i]).source < nregions
                        && redges@[i].target < nregions
            },
            Err(e) => e == GenError::InvariantViolation && final(bedges)@ == old(bedges)@,
        },
{
    let ghost be0 = bedges@;
    let mut redges: Vec<GraphEdge<RegionEdge>> = Vec::new();
    let mut rmap = IndexMap::new();
    let mut kk: usize = 0;
    while kk < bedges.len()
        invariant
            bedges@ == be0,
            kk <= be0.len(),
            nregions <= 0x1_0000_0000,
            forall|j: int|
                0 <= j < be0.len() ==> (#[trigger] be0[j]).weight.region_edge is None
                    && be0[j].weight.regions@.len() >= 1,
            edge_regions_bound(be0, nregions as int),
            forall|j: int| 0 <= j < kk ==> (#[trigger] be0[j]).weight.regions@.len() <= 2,
            forall|j: int|
                0 <= j < kk && (#[trigger] be0[j]).weight.regions@.len() == 2
                    ==> be0[j].weight.regions@[0] != be0[j].weight.regions@[1],
            forall|i: int|
                0 <= i < redges@.len() ==> redge_acc_ok(
                    #[trigger] redges@[i],
                    be0,
                    kk as int,
                    nregions as int,
                ),
            forall|i1: int, i2: int|
                0 <= i1 < i2 < redges@.len() ==> bedge_of(redges@[i1]) < bedge_of(redges@[i2]),
            forall|j: int|
                0 <= j < kk && (#[trigger] be0[j]).weight.regions@.len() == 2 ==> exists|i: int|
                    0 <= i < redges@.len() && #[trigger] bedge_of(redges@[i]) == j,
            redges@.len() == count_interior(be0.subrange(0, kk as int)),
            redges@.len() <= kk,
            forall|i: int|
                0 <= i < redges@.len() ==> rmap@.contains_key(
                    pair_key_spec((#[trigger] redges@[i]).source, redges@[i].target),
                ) && rmap@[pair_key_spec(redges@[i].source, redges@[i].target)] == i,
            forall|k: u64|
                rmap@.contains_key(k) ==> (#[trigger] rmap@[k]) < redges@.len() && pair_key_spec(
                    redges@[rmap@[k] as int].source,
                    redges@[rmap@[k] as int].target,
                ) == k,
        decreases be0.len() - kk,
    {
        proof {
            assert(be0.subrange(0, kk as int + 1).drop_last() =~= be0.subrange(0, kk as int));
            assert(be0.subrange(0, kk as int + 1).last() == be0[kk as int]);
        }
        let e_regions_len = bedges[kk].weight.regions.len();
        if e_regions_len > 2 {
            return Err(GenError::InvariantViolation);
        }
        if e_regions_len == 2 {
            let ra = bedges[kk].weight.regions[0];
            let rb = bedges[kk].weight.regions[1];
            if ra == rb {
                return Err(GenError::InvariantViolation);
            }
            let key = pair_key(ra, rb);
            match rmap.get(key) {
                Some(prev) => {
                    proof {
                        let pe = redges@[prev as int];
                        let pb = bedge_of(pe);
                        let rs = be0[pb].weight.regions@;
                        assert(pair_key_spec(rs[0], rs[1]) == pair_key_spec(pe.source, pe.target));
                        assert(pair_key_spec(rs[0], rs[1]) == pair_key_spec(
                            be0[kk as int].weight.regions@[0],
                            be0[kk as int].weight.regions@[1],
                        ));
                        assert(degenerate_border_edges(be0)) by {
                            assert(0 <= pb < kk as int && be0[pb].weight.regions@.len() == 2
                                && be0[kk as int].weight.regions@.len() == 2 && pair_key_spec(
                                be0[pb].weight.regions@[0],
                                be0[pb].weight.regions@[1],
                            ) == pair_key_spec(
                                be0[kk as int].weight.regions@[0],
                                be0[kk as int].weight.regions@[1],
                            ));
                        }
                    }
                    return Err(GenError::InvariantViolation);
                },
                None => {
                    rmap.insert(key, redges.len());
                    let bsrc = bedges[kk].source;
                    let btgt = bedges[kk].target;
                    let mut bvec: Vec<usize> = Vec::new();
                    bvec.push(bsrc);
                    bvec.push(btgt);
                    let ghost rold = redges@;
                    redges.push(
                        GraphEdge {
                            source: ra,
                            target: rb,
                            weight: RegionEdge { border_edge: Some(kk), borders: bvec },
                        },
                    );
                    proof {
                        assert(redges@[rold.len() as int].weight.borders@ =~= seq![
                            be0[kk as int].source,
                            be0[kk as int].target,
                        ]);
                        assert forall|j: int|
                            0 <= j < kk + 1 && (#[trigger] be0[j]).weight.regions@.len()
                                == 2 implies exists|i: int|
                            0 <= i < redges@.len() && #[trigger] bedge_of(redges@[i]) == j by {
                            if j < kk {
                                let i0 = choose|i: int|
                                    0 <= i < rold.len() && #[trigger] bedge_of(rold[i]) == j;
                                assert(bedge_of(redges@[i0]) == j);
                            } else {
                                assert(bedge_of(redges@[rold.len() as int]) == j);
                            }
                        }
                        assert forall|i1: int, i2: int|
                            0 <= i1 < i2 < redges@.len() implies bedge_of(redges@[i1]) < bedge_of(
                            redges@[i2],
                        ) by {}
                    }
                },
            }
        }
        kk = kk + 1;
    }
    proof {
        assert(be0.subrange(0, be0.len() as int) =~= be0);
        assert(!degenerate_border_edges(be0)) by {
            assert forall|i: int, j: int|
                0 <= i < j < be0.len() && (#[trigger] be0[i]).weight.regions@.len() == 2 && (
                #[trigger] be0[j]).weight.regions@.len() == 2 implies pair_key_spec(
                be0[i].weight.regions@[0],
                be0[i].weight.regions@[1],
            ) != pair_key_spec(be0[j].weight.regions@[0], be0[j].weight.regions@[1]) by {
                let a = choose|a: int| 0 <= a < redges@.len() && #[trigger] bedge_of(redges@[a]) == i;
                let b = choose|b: int| 0 <= b < redges@.len() && #[trigger] bedge_of(redges@[b]) == j;
                assert(pair_key_spec(redges@[a].source, redges@[a].target) == pair_key_spec(
                    be0[i].weight.regions@[0],
                    be0[i].weight.regions@[1],
                ));
                assert(pair_key_spec(redges@[b].source, redges@[b].target) == pair_key_spec(
                    be0[j].weight.regions@[0],
                    be0[j].weight.regions@[1],
                ));
                if pair_key_spec(be0[i].weight.regions@[0], be0[i].weight.regions@[1])
                    == pair_key_spec(be0[j].weight.regions@[0], be0[j].weight.regions@[1]) {
                    assert(rmap@[pair_key_spec(redges@[a].source, redges@[a].target)] == a);
                    assert(rmap@[pair_key_spec(redges@[b].source, redges@[b].target)] == b);
                    assert(a == b);
                }
            }
        }
    }
    let ghost r0 = redges@;
    let nredges = redges.len();
    let mut t: usize = 0;
    while t < nredges
        invariant
            redges@ == r0,
            t <= nredges,
            nredges == r0.len(),
            nregions <= 0x1_0000_0000,
            !degenerate_border_edges(be0),
            bedges@.len() == be0.len(),
            forall|j: int|
                0 <= j < be0.len() ==> (#[trigger] bedges@[j]).source == be0[j].source
                    && bedges@[j].target == be0[j].target && bedges@[j].weight.regions@
                    == be0[j].weight.regions@,
            forall|i: int|
                0 <= i < r0.len() ==> redge_acc_ok(
                    #[trigger] r0[i],
                    be0,
                    be0.len() as int,
                    nregions as int,
                ),
            forall|i: int|
                0 <= i < r0.len() ==> rmap@.contains_key(
                    pair_key_spec((#[trigger] r0[i]).source, r0[i].target),
                ) && rmap@[pair_key_spec(r0[i].source, r0[i].target)] == i,
            forall|i1: int, i2: int|
                0 <= i1 < i2 < r0.len() ==> bedge_of(r0[i1]) < bedge_of(r0[i2]),
            forall|j: int|
                0 <= j < be0.len() && (#[trigger] be0[j]).weight.regions@.len() == 2
                    ==> exists|i: int| 0 <= i < r0.len() && #[trigger] bedge_of(r0[i]) == j,
            forall|j: int| 0 <= j < be0.len() ==> (#[trigger] be0[j]).weight.regions@.len() <= 2,
            forall|i: int|
                0 <= i < t ==> (#[trigger] bedges@[bedge_of(r0[i])]).weight.region_edge == Some(
                    i as usize,
                ),
            forall|j: int|
                0 <= j < be0.len() && !(exists|i: int|
                    0 <= i < t && #[trigger] bedge_of(r0[i]) == j) ==> (
                #[trigger] bedges@[j]).weight.region_edge is None,
        decreases nredges - t,
    {
        let b = match redges[t].weight.border_edge {
            Some(b) => b,
            None => {
                proof {
                    assert(false);
                }
                return Err(GenError::InvariantViolation);
            },
        };
        let ba = redges[t].weight.borders[0];
        let bb = redges[t].weight.borders[1];
        if !((bedges[b].source == ba && bedges[b].target == bb) || (bedges[b].source == bb
            && bedges[b].target == ba)) {
            proof {
                assert(false);
            }
            return Err(GenError::InvariantViolation);
        }
        let esrc = bedges[b].source;
        let etgt = bedges[b].target;
        let regs = clone_indices(&bedges[b].weight.regions);
        let ghost bmid = bedges@;
        bedges[b] = GraphEdge {
            source: esrc,
            target: etgt,
            weight: BorderEdge { region_edge: Some(t), regions: regs },
        };
        proof {
            assert(bedges@[b as int].weight.regions@ =~= be0[b as int].weight.regions@);
            assert forall|i: int| 0 <= i < t + 1 implies (#[trigger] bedges@[bedge_of(
                r0[i],
            )]).weight.region_edge == Some(i as usize) by {
                if i < t {
                    assert(bedge_of(r0[i]) < bedge_of(r0[t as int]));
                    assert(bedges@[bedge_of(r0[i])] == bmid[bedge_of(r0[i])]);
                }
            }
            assert forall|j: int|
                0 <= j < be0.len() && !(exists|i: int|
                    0 <= i < t + 1 && #[trigger] bedge_of(r0[i]) == j) implies (
            #[trigger] bedges@[j]).weight.region_edge is None by {
                if j != b {
                    assert(bedges@[j] == bmid[j]);
                    if !(exists|i: int| 0 <= i < t && #[trigger] bedge_of(r0[i]) == j) {
                    } else {
                        let i0 = choose|i: int| 0 <= i < t && #[trigger] bedge_of(r0[i]) == j;
                        assert(bedge_of(r0[i0]) == j);
                    }
                } else {
                    assert(bedge_of(r0[t as int]) == j);
                }
            }
        }
        t = t + 1;
    }
    proof {
        lemma_count_interior_congruent(bedges@, be0);
        assert forall|i: int| 0 <= i < redges@.len() implies region_edge_linked(
            i,
            redges@,
            bedges@,
        ) by {
            assert(redge_acc_ok(r0[i], be0, be0.len() as int, nregions as int));
            assert(bedges@[bedge_of(r0[i])].weight.region_edge == Some(i as usize));
            assert(redges@[i].weight.borders@ == seq![
                be0[bedge_of(r0[i])].source,
                be0[bedge_of(r0[i])].target,
            ]);
            assert(bedges@[bedge_of(r0[i])].source == be0[bedge_of(r0[i])].source
                && bedges@[bedge_of(r0[i])].target == be0[bedge_of(r0[i])].target);
            assert(redges@[i].weight.borders@ =~= seq![
                bedges@[bedge_of(r0[i])].source,
                bedges@[bedge_of(r0[i])].target,
            ]);
        }
        assert forall|j: int| 0 <= j < bedges@.len() implies border_edge_linked(
            j,
            redges@,
            bedges@,
        ) by {
            if be0[j].weight.regions@.len() == 2 {
                let i0 = choose|i: int| 0 <= i < r0.len() && #[trigger] bedge_of(r0[i]) == j;
                assert(bedges@[j].weight.region_edge == Some(i0 as usize));
            } else {
                assert forall|i: int| 0 <= i < r0.len() implies #[trigger] bedge_of(r0[i])
                    != j by {
                    assert(redge_acc_ok(r0[i], be0, be0.len() as int, nregions as int));
                }
            }
        }
        assert forall|i: int, j: int| 0 <= i < j < redges@.len() implies !connects(
            #[trigger] redges@[i],
            (#[trigger] redges@[j]).source as int,
            redges@[j].target as int,
        ) by {
            if connects(redges@[i], redges@[j].source as int, redges@[j].target as int) {
                assert(pair_key_spec(redges@[i].source, redges@[i].target) == pair_key_spec(
                    redges@[j].source,
                    redges@[j].target,
                ));
                assert(rmap@[pair_key_spec(redges@[i].source, redges@[i].target)] == i);
                assert(rmap@[pair_key_spec(redges@[j].source, redges@[j].target)] == j);
            }
        }
    }
    Ok(redges)
}

/// Duality, region side: every region edge names a border edge whose two
/// recorded regions are exactly the edge's endpoints and whose `region_edge`
/// points back at it; the edge's `borders` are that wall's two endpoints.
pub proof fn lemma_duality_region_edge<RV, BV>(rg: RegionGraph<RV>, bg: BorderGraph<BV>, i: int)
    requires
        dual_graphs_wf(rg, bg),
        0 <= i < rg.edges@.len(),
    ensures
        rg.edges@[i].weight.border_edge is Some,
        ({
            let e = rg.edges@[i];
            let b = e.weight.border_edge.unwrap() as int;
            &&& 0 <= b < bg.edges@.len()
            &&& bg.edges@[b].weight.region_edge == Some(i as usize)
            &&& bg.edges@[b].weight.regions@.len() == 2
            &&& bg.edges@[b].weight.regions@.contains(e.source)
            &&& bg.edges@[b].weight.regions@.contains(e.target)
            &&& e.weight.borders@ == seq![bg.edges@[b].source, bg.edges@[b].target]
        }),
{
    assert(region_edge_linked(i, rg.edges@, bg.edges@));
    let e = rg.edges@[i];
    let b = e.weight.border_edge.unwrap() as int;
    let rs = bg.edges@[b].weight.regions@;
    assert(rs.contains(e.source) && rs.contains(e.target)) by {
        assert(rs[0] == e.source || rs[1] == e.source);
        assert(rs[0] == e.target || rs[1] == e.target);
    }
}

/// Duality, border side: every interior border edge (two regions on its
/// sides) names a region edge that points back at it and joins exactly its
/// two distinct regions.
pub proof fn lemma_duality_border_edge<RV, BV>(rg: RegionGraph<RV>, bg: BorderGraph<BV>, j: int)
    requires
        dual_graphs_wf(rg, bg),
        0 <= j < bg.edges@.len(),
        bg.edges@[j].weight.regions@.len() == 2,
    ensures
        bg.edges@[j].weight.region_edge is Some,
        bg.edges@[j].weight.regions@[0] != bg.edges@[j].weight.regions@[1],
        ({
            let r = bg.edges@[j].weight.region_edge.unwrap() as int;
            &&& 0 <= r < rg.edges@.len()
            &&& rg.edges@[r].weight.border_edge == Some(j as usize)
            &&& connects(
                rg.edges@[r],
                bg.edges@[j].weight.regions@[0] as int,
                bg.edges@[j].weight.regions@[1] as int,
            )
        }),
{
    vstd::std_specs::vec::axiom_spec_len(&bg.edges);
    assert(border_edge_linked(j, rg.edges@, bg.edges@));
    let r = bg.edges@[j].weight.region_edge.unwrap() as int;
    assert(region_edge_linked(r, rg.edges@, bg.edges@));
}

/// Hull walls: a border edge with a single region on its sides has no dual
/// region edge.
pub proof fn lemma_hull_edge_has_no_dual<RV, BV>(rg: RegionGraph<RV>, bg: BorderGraph<BV>, j: int)
    requires
        dual_graphs_wf(rg, bg),
        0 <= j < bg.edges@.len(),
        bg.edges@[j].weight.regions@.len() == 1,
    ensures
        bg.edges@[j].weight.region_edge is None,
{
    assert(border_edge_linked(j, rg.edges@, bg.edges@));
}

/// Incidence symmetry: a region lists a border node among its `borders`
/// exactly when that border node lists the region among its `regions`.
pub proof fn lemma_incidence_symmetry<RV, BV>(
    rg: RegionGraph<RV>,
    bg: BorderGraph<BV>,
    r: int,
    b: int,
)
    requires
        dual_graphs_wf(rg, bg),
        0 <= r < rg.nodes@.len(),
        0 <= b < bg.nodes@.len(),
    ensures
        rg.nodes@[r].borders@.contains(b as usize) <==> bg.nodes@[b].regions@.contains(r as usize),
{
}

/// No parallel edges: in both graphs, at most one edge joins any unordered
/// pair of nodes.
pub proof fn lemma_no_parallel_edges<RV, BV>(rg: RegionGraph<RV>, bg: BorderGraph<BV>)
    requires
        dual_graphs_wf(rg, bg),
    ensures
        no_parallel_edges(rg),
        no_parallel_edges(bg),
{
}

/// Conservation: the region graph has exactly one edge per interior border
/// edge.
pub proof fn lemma_conservation<RV, BV>(rg: RegionGraph<RV>, bg: BorderGraph<BV>)
    requires
        dual_graphs_wf(rg, bg),
    ensures
        rg.edges@.len() == count_interior(bg.edges@),
{
}

/// Centroid law: a region's position is the rounded-down mean of its border
/// nodes' coordinates, so it is within one coordinate unit (one thousandth
/// of a world unit) of the exact mean on each axis.
pub proof fn lemma_centroid<RV, BV>(rg: RegionGraph<RV>, bg: BorderGraph<BV>, r: int)
    requires
        dual_graphs_wf(rg, bg),
        0 <= r < rg.nodes@.len(),
    ensures
        rg.nodes@[r].borders@.len() >= 1,
        ({
            let n = rg.nodes@[r];
            let len = n.borders@.len() as int;
            let sx = sum_px(border_positions(bg), n.borders@);
            let sy = sum_py(border_positions(bg), n.borders@);
            &&& n.pos.x * len <= sx < (n.pos.x + 1) * len
            &&& n.pos.y * len <= sy < (n.pos.y + 1) * len
        }),
{
    let n = rg.nodes@[r];
    let len = n.borders@.len() as int;
    let sx = sum_px(border_positions(bg), n.borders@);
    let sy = sum_py(border_positions(bg), n.borders@);
    assert(region_node_ok(n, border_positions(bg)));
    vstd::arithmetic::div_mod::lemma_fundamental_div_mod(sx, len);
    vstd::arithmetic::div_mod::lemma_fundamental_div_mod(sy, len);
    assert(n.pos.x * len <= sx < (n.pos.x + 1) * len) by (nonlinear_arith)
        requires
            len > 0,
            sx == len * (sx / len) + sx % len,
            0 <= sx % len < len,
            n.pos.x == sx / len,
    {}
    assert(n.pos.y * len <= sy < (n.pos.y + 1) * len) by (nonlinear_arith)
        requires
            len > 0,
            sy == len * (sy / len) + sy % len,
            0 <= sy % len < len,
            n.pos.y == sy / len,
    {}
}

/// Builds the two graphs from a validated polygon list: pass A, then the
/// dual linking.  On success the pair satisfies every dual-graph invariant,
/// has one region node per polygon with that polygon's corner count, and
/// every border node sits on a polygon corner.  `TessellationFailed` comes
/// exactly when the list outruns the packed index space; the only other
/// failure is `InvariantViolation` from the dual linking, whose exact
/// condition is [`link_duals`]'s.
pub fn assemble_dual_graph<RN: Default, BN: Default>(polys: &Vec<Vec<Pos>>) -> (r: Result<
    (RegionGraph<RN>, BorderGraph<BN>),
    GenError,
>)
    requires
        wf_polys(polys_seq(*polys)),
    ensures
        polys@.len() == 0 ==> r is Ok,
        (polys@.len() > 0x1_0000_0000 || len_sum(polys_seq(*polys), polys_seq(*polys).len() as int)
            > 0x7fff_ffff) ==> r is Err,
        match r {
            Ok((rg, bg)) => {
                &&& dual_graphs_wf(rg, bg)
                &&& rg.nodes@.len() == polys@.len()
                &&& forall|r0: int|
                    0 <= r0 < rg.nodes@.len() ==> (#[trigger] rg.nodes@[r0]).borders@.len()
                        == polys@[r0]@.len()
                &&& forall|b: int|
                    0 <= b < bg.nodes@.len() ==> corner_of(
                        (#[trigger] bg.nodes@[b]).pos,
                        polys_seq(*polys),
                    )
            },
            Err(e) => {
                &&& (e == GenError::TessellationFailed <==> polys@.len() > 0x1_0000_0000
                    || len_sum(polys_seq(*polys), polys_seq(*polys).len() as int) > 0x7fff_ffff)
                &&& (e == GenError::TessellationFailed || e == GenError::InvariantViolation)
            },
        },
{
    let over = (polys.len() as u64) > 0x1_0000_0000u64;
    if over || !check_len_sum(polys) {
        return Err(GenError::TessellationFailed);
    }
    let inc = build_incidence(polys);
    let Incidence { region_borders, region_pos, border_pos, border_regions, mut border_edges } =
        inc;
    let ghost be0 = border_edges@;
    let nregions = region_borders.len();
    let redges = match link_duals(&mut border_edges, nregions) {
        Ok(redges) => redges,
        Err(e) => {
            proof {
                if polys@.len() == 0 {
                    assert(degenerate_border_edges(be0));
                    assert(be0.len() > 0) by {
                        if be0.len() == 0 {
                        }
                    }
                    assert(be0[0].weight.regions@.len() >= 1);
                    assert(be0[0].weight.regions@[0] < 0);
                }
            }
            return Err(e);
        },
    };
    let mut rnodes: Vec<RegionNode<RN>> = Vec::new();
    let mut r: usize = 0;
    while r < nregions
        invariant
            r <= nregions,
            nregions == region_borders@.len(),
            nregions == region_pos@.len(),
            rnodes@.len() == r,
            forall|i: int|
                0 <= i < r ==> (#[trigger] rnodes@[i]).borders@ == region_borders@[i]@
                    && rnodes@[i].pos == region_pos@[i],
        decreases nregions - r,
    {
        let borders = clone_indices(&region_borders[r]);
        rnodes.push(RegionNode { borders, pos: region_pos[r], value: RN::default() });
        r = r + 1;
    }
    let nborders = border_pos.len();
    let mut bnodes: Vec<BorderNode<BN>> = Vec::new();
    let mut b: usize = 0;
    while b < nborders
        invariant
            b <= nborders,
            nborders == border_pos@.len(),
            nborders == border_regions@.len(),
            bnodes@.len() == b,
            forall|i: int|
                0 <= i < b ==> (#[trigger] bnodes@[i]).regions@ == border_regions@[i]@
                    && bnodes@[i].pos == border_pos@[i],
        decreases nborders - b,
    {
        let regions = clone_indices(&border_regions[b]);
        bnodes.push(BorderNode { regions, pos: border_pos[b], value: BN::default() });
        b = b + 1;
    }
    let rg = UnGraph { nodes: rnodes, edges: redges };
    let bg = UnGraph { nodes: bnodes, edges: border_edges };
    proof {
        let ps = polys_seq(*polys);
        assert(border_positions(bg) =~= border_pos@);
        assert forall|r0: int| 0 <= r0 < rg.nodes@.len() implies (
        #[trigger] rg.nodes@[r0]).borders@.len() == polys@[r0]@.len() by {
            assert(rg.nodes@[r0].borders@ == region_borders@[r0]@);
            assert(region_borders@[r0]@.len() == ps[r0].len());
        }
        assert forall|b0: int| 0 <= b0 < bg.nodes@.len() implies corner_of(
            (#[trigger] bg.nodes@[b0]).pos,
            ps,
        ) by {
            assert(bg.nodes@[b0].pos == border_pos@[b0]);
        }
        assert forall|i: int| 0 <= i < rg.nodes@.len() implies region_node_ok(
            #[trigger] rg.nodes@[i],
            border_positions(bg),
        ) by {
            assert(rg.nodes@[i].borders@ == region_borders@[i]@);
            assert(1 <= ps[i].len());
        }
        assert(incidence_symmetric(rg, bg)) by {
            assert forall|r0: int, b0: int|
                0 <= r0 < rg.nodes@.len() && 0 <= b0 < bg.nodes@.len() implies ((
            #[trigger] rg.nodes@[r0]).borders@.contains(b0 as usize) <==> (
            #[trigger] bg.nodes@[b0]).regions@.contains(r0 as usize)) by {
                assert(rg.nodes@[r0].borders@ == region_borders@[r0]@);
                assert(bg.nodes@[b0].regions@ == border_regions@[b0]@);
                if region_borders@[r0]@.contains(b0 as usize) {
                }
                if border_regions@[b0]@.contains(r0 as usize) {
                }
            }
        }
        assert(border_side_indices_ok(rg, bg)) by {
            assert forall|b0: int, k: int|
                0 <= b0 < bg.nodes@.len() && 0 <= k < bg.nodes@[b0].regions@.len() implies (
            #[trigger] bg.nodes@[b0].regions@[k]) < rg.nodes@.len() by {
                assert(border_regions@[b0]@.contains(border_regions@[b0]@[k]));
            }
        }
        assert(no_parallel_edges(bg)) by {
            assert forall|i: int, j: int|
                0 <= i < bg.edges@.len() && 0 <= j < bg.edges@.len() && i != j implies !connects(
                #[trigger] bg.edges@[i],
                (#[trigger] bg.edges@[j]).source as int,
                bg.edges@[j].target as int,
            ) by {
                assert(bg.edges@[i].source == be0[i].source && bg.edges@[i].target
                    == be0[i].target);
                assert(bg.edges@[j].source == be0[j].source && bg.edges@[j].target
                    == be0[j].target);
                if i < j {
                    assert(!connects(be0[i], be0[j].source as int, be0[j].target as int));
                } else {
                    assert(!connects(be0[j], be0[i].source as int, be0[i].target as int));
                }
            }
        }
        assert(no_parallel_edges(rg)) by {
            assert forall|i: int, j: int|
                0 <= i < rg.edges@.len() && 0 <= j < rg.edges@.len() && i != j implies !connects(
                #[trigger] rg.edges@[i],
                (#[trigger] rg.edges@[j]).source as int,
                rg.edges@[j].target as int,
            ) by {
                if i < j {
                } else {
                    assert(!connects(rg.edges@[j], rg.edges@[i].source as int, rg.edges@[i].target
                        as int));
                }
            }
        }
    }
    Ok((rg, bg))
}

proof fn lemma_sum_bounded(bpos: Seq<Pos>, borders: Seq<usize>, limit: int)
    requires
        limit >= 0,
        forall|b: int|
            0 <= b < bpos.len() ==> 0 <= (#[trigger] bpos[b]).x <= limit && 0 <= bpos[b].y
                <= limit,
        forall|k: int| 0 <= k < borders.len() ==> (#[trigger] borders[k]) < bpos.len(),
    ensures
        0 <= sum_px(bpos, borders) <= borders.len() * limit,
        0 <= sum_py(bpos, borders) <= borders.len() * limit,
    decreases borders.len(),
{
    if borders.len() > 0 {
        lemma_sum_bounded(bpos, borders.drop_last(), limit);
        assert((borders.len() - 1) * limit + limit == borders.len() * limit) by (nonlinear_arith);
    }
}

/// When every border node lies within `[0, limit]` on both axes, so does
/// every region centroid: a mean of bounded coordinates is bounded.
pub proof fn lemma_positions_in_box<RV, BV>(rg: RegionGraph<RV>, bg: BorderGraph<BV>, limit: int)
    requires
        dual_graphs_wf(rg, bg),
        limit >= 0,
        forall|b: int|
            0 <= b < bg.nodes@.len() ==> 0 <= (#[trigger] bg.nodes@[b]).pos.x <= limit && 0
                <= bg.nodes@[b].pos.y <= limit,
    ensures
        forall|r: int|
            0 <= r < rg.nodes@.len() ==> 0 <= (#[trigger] rg.nodes@[r]).pos.x <= limit && 0
                <= rg.nodes@[r].pos.y <= limit,
{
    assert forall|r: int| 0 <= r < rg.nodes@.len() implies 0 <= (#[trigger] rg.nodes@[r]).pos.x
        <= limit && 0 <= rg.nodes@[r].pos.y <= limit by {
        let n = rg.nodes@[r];
        assert(region_node_ok(n, border_positions(bg)));
        assert forall|b: int| 0 <= b < border_positions(bg).len() implies 0 <= (
        #[trigger] border_positions(bg)[b]).x <= limit && 0 <= border_positions(bg)[b].y
            <= limit by {
            assert(border_positions(bg)[b] == bg.nodes@[b].pos);
        }
        lemma_sum_bounded(border_positions(bg), n.borders@, limit);
        let len = n.borders@.len() as int;
        let sx = sum_px(border_positions(bg), n.borders@);
        let sy = sum_py(border_positions(bg), n.borders@);
        assert(0 <= sx / len <= limit && 0 <= sy / len <= limit) by (nonlinear_arith)
            requires
                0 <= sx <= len * limit,
                0 <= sy <= len * limit,
                len >= 1,
                limit >= 0,
        {}
    }
}

/// The whole pipeline: sample `num_points` seed points of the box `dims`
/// with `rng`, relax `num_lloyd_iterations` times, tessellate, and build
/// the dual graph pair.
///
/// With no points and no relaxation the result is a pair of empty graphs;
/// `InvalidDomain` is returned exactly when points are requested from a
/// domain under one world unit on a side, or relaxation is requested
/// without points.  On success the pair satisfies every dual-graph
/// invariant, every region is a polygon of at least three corners, every
/// position lies inside the clipping square, and the region-node count is
/// pinned by the tessellation of the sampled points, so equal samples give
/// equal region counts.
pub fn gen_dual_graph<RN: Default, BN: Default, R: RandomSource>(
    dims: Pos,
    num_points: usize,
    num_lloyd_iterations: u32,
    rng: &mut R,
) -> (r: Result<(RegionGraph<RN>, BorderGraph<BN>), GenError>)
    requires
        dims.x <= MAX_COORD,
        dims.y <= MAX_COORD,
    ensures
        num_points == 0 && num_lloyd_iterations == 0 ==> r is Ok,
        match r {
            Ok((rg, bg)) => {
                &&& dual_graphs_wf(rg, bg)
                &&& (num_points == 0 ==> rg.nodes@.len() == 0 && rg.edges@.len() == 0
                    && bg.nodes@.len() == 0 && bg.edges@.len() == 0)
                &&& (num_points > 0 ==> forall|r0: int|
                    0 <= r0 < rg.nodes@.len() ==> (#[trigger] rg.nodes@[r0]).borders@.len() >= 3)
                &&& (num_points > 0 ==> forall|b: int|
                    0 <= b < bg.nodes@.len() ==> 0 <= (#[trigger] bg.nodes@[b]).pos.x <= dims.x
                        && 0 <= bg.nodes@[b].pos.y <= dims.x)
                &&& (num_points > 0 ==> forall|r0: int|
                    0 <= r0 < rg.nodes@.len() ==> 0 <= (#[trigger] rg.nodes@[r0]).pos.x <= dims.x
                        && 0 <= rg.nodes@[r0].pos.y <= dims.x)
                &&& (num_points > 0 ==> exists|w0: Seq<Pos>|
                    #[trigger] crate::sample::sample_ok(
                        w0,
                        num_points as int,
                        crate::relax::world_of(dims),
                    ) && crate::relax::lloyd_rounds_ok(
                        w0,
                        crate::relax::world_of(dims).x as int,
                        num_lloyd_iterations as nat,
                    ) && rg.nodes@.len() == crate::relax::final_cells(
                        w0,
                        crate::relax::world_of(dims).x as int,
                        num_lloyd_iterations as nat,
                    ).len())
            },
            Err(e) => {
                &&& (e == GenError::InvalidDomain <==> ((num_points > 0 && (dims.x
                    < crate::geom::WORLD_UNIT || dims.y < crate::geom::WORLD_UNIT)) || (num_points
                    == 0 && num_lloyd_iterations > 0)))
                &&& (e == GenError::InvalidDomain || e == GenError::PointSetExhausted || e
                    == GenError::TessellationFailed || e == GenError::InvariantViolation)
            },
        },
{
    if num_points == 0 {
        if num_lloyd_iterations > 0 {
            return Err(GenError::InvalidDomain);
        }
        let rg: RegionGraph<RN> = UnGraph::new_undirected();
        let bg: BorderGraph<BN> = UnGraph::new_undirected();
        return Ok((rg, bg));
    }
    let polys = match gen_voronoi(&dims, num_points, num_lloyd_iterations, rng) {
        Ok(polys) => polys,
        Err(e) => {
            return Err(e);
        },
    };
    match assemble_dual_graph(&polys) {
        Ok((rg, bg)) => {
            proof {
                let wb = crate::relax::world_of(dims);
                let w0 = choose|w0: Seq<Pos>|
                    #[trigger] crate::sample::sample_ok(w0, num_points as int, wb)
                        && crate::relax::lloyd_rounds_ok(
                        w0,
                        wb.x as int,
                        num_lloyd_iterations as nat,
                    ) && polys_seq(polys) == crate::relax::scale_up_spec(
                        crate::relax::final_cells(w0, wb.x as int, num_lloyd_iterations as nat),
                        crate::geom::WORLD_UNIT as int,
                    );
                let cells = crate::relax::final_cells(
                    w0,
                    wb.x as int,
                    num_lloyd_iterations as nat,
                );
                assert(polys_seq(polys).len() == polys@.len());
                assert(crate::relax::scale_up_spec(cells, crate::geom::WORLD_UNIT as int).len()
                    == cells.len());
                assert(crate::sample::sample_ok(w0, num_points as int, wb)
                    && crate::relax::lloyd_rounds_ok(w0, wb.x as int, num_lloyd_iterations as nat)
                    && rg.nodes@.len() == cells.len());
                assert forall|b: int| 0 <= b < bg.nodes@.len() implies 0 <= (
                #[trigger] bg.nodes@[b]).pos.x <= dims.x && 0 <= bg.nodes@[b].pos.y <= dims.x by {
                    assert(corner_of(bg.nodes@[b].pos, polys_seq(*&polys)));
                    let (f, k) = choose|f: int, k: int|
                        #![trigger polys_seq(polys)[f][k]]
                        0 <= f < polys_seq(polys).len() && 0 <= k < polys_seq(polys)[f].len()
                            && bg.nodes@[b].pos == polys_seq(polys)[f][k];
                    assert(polys_seq(polys)[f][k] == polys@[f]@[k]);
                    assert(0 <= polys@[f]@[k].x <= wb.x * crate::geom::WORLD_UNIT);
                    assert(wb.x * crate::geom::WORLD_UNIT <= dims.x);
                }
                lemma_positions_in_box(rg, bg, dims.x as int);
            }
            Ok((rg, bg))
        },
        Err(e) => {
            return Err(e);
        },
    }
}

} // verus!
