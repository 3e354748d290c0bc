//! A minimal arena-backed undirected graph: nodes and edges live in vectors
//! and refer to each other by index.  Edge direction is an artifact of
//! storage; lookups treat an edge as an unordered pair.

use vstd::prelude::*;

verus! {

/// One stored edge: the two endpoint node indices and a caller-chosen weight.
pub struct GraphEdge<E> {
    pub source: usize,
    pub target: usize,
    pub weight: E,
}

/// An undirected graph.  `nodes[i]` is the weight of node `i`; every edge
/// endpoint indexes into `nodes`.
pub struct UnGraph<N, E> {
    pub nodes: Vec<N>,
    pub edges: Vec<GraphEdge<E>>,
}

/// Whether edge `e` joins `a` and `b`, in either storage order.
pub open spec fn connects<E>(e: GraphEdge<E>, a: int, b: int) -> bool {
    (e.source == a && e.target == b) || (e.source == b && e.target == a)
}

/// Every edge endpoint is a valid node index.
pub open spec fn edges_in_range<N, E>(g: UnGraph<N, E>) -> bool {
    forall|i: int|
        0 <= i < g.edges@.len() ==> (#[trigger] g.edges@[i]).source < g.nodes@.len()
            && g.edges@[i].target < g.nodes@.len()
}

/// No two distinct edges join the same unordered pair of nodes.
pub open spec fn no_parallel_edges<N, E>(g: UnGraph<N, E>) -> bool {
    forall|i: int, j: int|
        0 <= i < g.edges@.len() && 0 <= j < g.edges@.len() && i != j ==> !connects(
            #[trigger] g.edges@[i],
            (#[trigger] g.edges@[j]).source as int,
            g.edges@[j].target as int,
        )
}

impl<N, E> UnGraph<N, E> {
    /// An empty graph.
    pub fn new_undirected() -> (g: Self)
        ensures
            g.nodes@.len() == 0,
            g.edges@.len() == 0,
    {
        UnGraph { nodes: Vec::new(), edges: Vec::new() }
    }

    /// The number of nodes.
    pub fn node_count(&self) -> (n: usize)
        ensures
            n == self.nodes@.len(),
    {
        self.nodes.len()
    }

    /// The number of edges.
    pub fn edge_count(&self) -> (n: usize)
        ensures
            n == self.edges@.len(),
    {
        self.edges.len()
    }

    /// Appends a node and returns its index.
    pub fn add_node(&mut self, weight: N) -> (idx: usize)
        ensures
            final(self).nodes@ == old(self).nodes@.push(weight),
            final(self).edges@ == old(self).edges@,
            idx == old(self).nodes@.len(),
    {
        let idx = self.nodes.len();
        self.nodes.push(weight);
        idx
    }

    /// Appends an edge between `a` and `b` and returns its index.
    pub fn add_edge(&mut self, a: usize, b: usize, weight: E) -> (idx: usize)
        requires
            a < old(self).nodes@.len(),
            b < old(self).nodes@.len(),
        ensures
            final(self).nodes@ == old(self).nodes@,
            final(self).edges@ == old(self).edges@.push(
                GraphEdge { source: a, target: b, weight },
            ),
            idx == old(self).edges@.len(),
    {
        let idx = self.edges.len();
        self.edges.push(GraphEdge { source: a, target: b, weight });
        idx
    }

    /// Looks up the edge joining `a` and `b` in either direction, returning
    /// the lowest matching edge index.
    pub fn find_edge_undirected(&self, a: usize, b: usize) -> (r: Option<usize>)
        ensures
            match r {
                Some(i) => i < self.edges@.len() && connects(
                    self.edges@[i as int],
                    a as int,
                    b as int,
                ) && forall|j: int|
                    0 <= j < i ==> !connects(#[trigger] self.edges@[j], a as int, b as int),
                None => forall|i: int|
                    0 <= i < self.edges@.len() ==> !connects(
                        #[trigger] self.edges@[i],
                        a as int,
                        b as int,
                    ),
            },
    {
        let mut i: usize = 0;
        while i < self.edges.len()
            invariant
                i <= self.edges@.len(),
                forall|j: int|
                    0 <= j < i ==> !connects(#[trigger] self.edges@[j], a as int, b as int),
            decreases self.edges@.len() - i,
        {
            let e = &self.edges[i];
            if (e.source == a && e.target == b) || (e.source == b && e.target == a) {
                return Some(i);
            }
            i = i + 1;
        }
        None
    }
}

} // verus!
