use dual_graph::dual::{assemble_dual_graph, BorderEdge, BorderNode, RegionNode};
use dual_graph::geom::{GenError, Pos};
use dual_graph::graph::{GraphEdge, UnGraph};
use dual_graph::relax::{clean_polys, filter_cells, poly_centroids};
use dual_graph::rng::{RandomSource, XorShiftRng};
use dual_graph::sample::{contains, gen_points};
use dual_graph::tess::validate_polys;

fn p(x: i64, y: i64) -> Pos {
    Pos { x, y }
}

#[test]
fn xorshift_is_reproducible_and_zero_seed_is_replaced() {
    let mut a = XorShiftRng::from_seed([7; 16]);
    let mut b = XorShiftRng::from_seed([7; 16]);
    for _ in 0..100 {
        assert_eq!(a.next_u64(), b.next_u64());
    }
    let mut z = XorShiftRng::from_seed([0; 16]);
    let first = z.next_u64();
    assert_ne!(first, 0u64.wrapping_mul(2), "an all-zero seed must not freeze the generator");
    let mut z2 = XorShiftRng::from_seed([0; 16]);
    assert_eq!(first, z2.next_u64());
}

#[test]
fn contains_matches_on_both_axes_only() {
    let pts = vec![p(1, 2), p(3, 4)];
    assert!(contains(&p(1, 2), &pts));
    assert!(!contains(&p(1, 4), &pts));
    assert!(!contains(&p(3, 2), &pts));
    assert!(!contains(&p(0, 0), &pts));
}

#[test]
fn dedup_stress() {
    // A one-by-one world-unit domain is one thousand coordinate units wide.
    let bounds = p(1000, 1000);
    let mut rng = XorShiftRng::from_seed([5, 4, 3, 2, 1, 2, 3, 4, 5, 6, 7, 8, 9, 10, 11, 12]);
    let pts = gen_points(1000, &bounds, &mut rng).expect("sampling failed");
    assert_eq!(pts.len(), 1000);
    for i in 0..pts.len() {
        for j in (i + 1)..pts.len() {
            assert!(
                (pts[i].x - pts[j].x).abs() >= 1 || (pts[i].y - pts[j].y).abs() >= 1,
                "two points closer than the minimum separation"
            );
        }
    }
    for w in pts.windows(2) {
        assert!(w[0].y <= w[1].y, "points must be sorted by ascending y");
    }
    assert!(pts[999].y - pts[998].y >= 1, "the two largest y values must differ");
}

#[test]
fn sampler_rejects_empty_domain_and_exhausts_small_ones() {
    let mut rng = XorShiftRng::from_seed([3; 16]);
    assert_eq!(gen_points(5, &p(0, 7), &mut rng).err(), Some(GenError::InvalidDomain));
    assert_eq!(gen_points(0, &p(0, 0), &mut rng).ok().map(|v| v.len()), Some(0));
    // Only sixteen distinct lattice points exist in a 4-by-4 domain.
    assert_eq!(gen_points(50, &p(4, 4), &mut rng).err(), Some(GenError::PointSetExhausted));
}

#[test]
fn centroids_are_exact_and_skip_empty_rings() {
    let polys = vec![
        vec![p(0, 0), p(2, 0), p(2, 2), p(0, 2)],
        vec![],
        vec![p(10, 10), p(11, 10), p(12, 13)],
    ];
    let c = poly_centroids(&polys);
    assert_eq!(c.len(), 2);
    assert_eq!(c[0], p(1, 1));
    assert_eq!(c[1], p(11, 11));
}

#[test]
fn filter_keeps_only_counterclockwise_rings() {
    let ccw = vec![p(0, 0), p(10, 0), p(10, 10), p(0, 10)];
    let cw = vec![p(0, 0), p(0, 10), p(10, 10), p(10, 0)];
    let slit = vec![p(0, 0), p(10, 0), p(0, 0), p(10, 0)];
    let kept = filter_cells(&vec![cw, ccw.clone(), slit]);
    assert_eq!(kept.len(), 1);
    assert_eq!(kept[0], ccw);
}

#[test]
fn cleaning_removes_repeats_and_spikes() {
    // A square with one corner doubled and one out-and-back spike.
    let noisy = vec![p(0, 0), p(10, 0), p(10, 0), p(10, 10), p(5, 20), p(10, 10), p(0, 10)];
    let cleaned = clean_polys(&vec![noisy]);
    assert_eq!(cleaned.len(), 1);
    assert_eq!(cleaned[0], vec![p(0, 0), p(10, 0), p(10, 10), p(0, 10)]);
}

#[test]
fn validate_rejects_bad_polygons() {
    assert!(validate_polys(&vec![vec![p(0, 0), p(5, 5)]]));
    assert!(!validate_polys(&vec![vec![]]));
    assert!(!validate_polys(&vec![vec![p(-1, 0)]]));
    assert!(!validate_polys(&vec![vec![p(0, 0x8000_0000)]]));
}

#[test]
fn find_edge_is_undirected() {
    let mut g: UnGraph<(), u8> = UnGraph::new_undirected();
    let a = g.add_node(());
    let b = g.add_node(());
    let c = g.add_node(());
    let e = g.add_edge(a, b, 7);
    assert_eq!(g.find_edge_undirected(a, b), Some(e));
    assert_eq!(g.find_edge_undirected(b, a), Some(e));
    assert_eq!(g.find_edge_undirected(a, c), None);
    assert_eq!(g.node_count(), 3);
    assert_eq!(g.edge_count(), 1);
}

#[test]
fn two_squares_share_one_wall() {
    // Two unit cells side by side: indices 0..5 for the six distinct corners.
    let polys = vec![
        vec![p(0, 0), p(1000, 0), p(1000, 1000), p(0, 1000)],
        vec![p(1000, 0), p(2000, 0), p(2000, 1000), p(1000, 1000)],
    ];
    let (rg, bg) = assemble_dual_graph::<(), ()>(&polys).expect("assembly failed");
    assert_eq!(rg.nodes.len(), 2);
    assert_eq!(bg.nodes.len(), 6, "shared corners are deduplicated");
    assert_eq!(bg.edges.len(), 7, "four walls each, one shared");
    assert_eq!(rg.edges.len(), 1);
    let re = &rg.edges[0];
    let b = re.weight.border_edge.expect("the adjacency crosses the shared wall");
    let wall = &bg.edges[b];
    assert_eq!(wall.weight.regions.len(), 2);
    assert_eq!(wall.weight.region_edge, Some(0));
    // The shared wall joins the corners at (1000, 0) and (1000, 1000).
    let (wa, wb) = (bg.nodes[wall.source].pos, bg.nodes[wall.target].pos);
    assert!(
        (wa == p(1000, 0) && wb == p(1000, 1000)) || (wa == p(1000, 1000) && wb == p(1000, 0))
    );
    // Centroids are the exact means of the four corners.
    assert_eq!(rg.nodes[0].pos, p(500, 500));
    assert_eq!(rg.nodes[1].pos, p(1500, 500));
    // Walk order is preserved in the borders list.
    assert_eq!(rg.nodes[0].borders.len(), 4);
}

#[test]
fn three_cells_on_one_wall_is_a_violation() {
    let square = vec![p(0, 0), p(1000, 0), p(1000, 1000), p(0, 1000)];
    let polys = vec![square.clone(), square.clone(), square];
    let r = assemble_dual_graph::<(), ()>(&polys);
    assert_eq!(r.err(), Some(GenError::InvariantViolation));
}

#[test]
fn empty_polygon_list_gives_empty_graphs() {
    let (rg, bg) = assemble_dual_graph::<(), ()>(&vec![]).expect("no input means no failure");
    assert_eq!(rg.nodes.len(), 0);
    assert_eq!(rg.edges.len(), 0);
    assert_eq!(bg.nodes.len(), 0);
    assert_eq!(bg.edges.len(), 0);
}

#[test]
fn sampling_is_reproducible_with_equal_seeds() {
    let seed = [8, 6, 7, 5, 3, 0, 9, 1, 2, 3, 4, 5, 6, 7, 8, 9];
    let mut r1 = XorShiftRng::from_seed(seed);
    let mut r2 = XorShiftRng::from_seed(seed);
    let a = gen_points(200, &p(5000, 5000), &mut r1).expect("first sample");
    let b = gen_points(200, &p(5000, 5000), &mut r2).expect("second sample");
    assert_eq!(a, b);
}

#[test]
fn payload_accessors() {
    let mut rn: RegionNode<u32> = RegionNode { borders: vec![1], pos: p(0, 0), value: 5 };
    assert_eq!(*rn.value(), 5);
    *rn.value_mut() = 9;
    assert_eq!(*rn.value(), 9);
    assert_eq!(rn.borders, vec![1]);
    let mut bn: BorderNode<u32> = BorderNode { regions: vec![2], pos: p(0, 0), value: 1 };
    *bn.value_mut() += 1;
    assert_eq!(*bn.value(), 2);
    assert_eq!(bn.regions, vec![2]);
}

#[test]
fn sampler_uses_supplied_randomness() {
    struct Fixed(u64);
    impl RandomSource for Fixed {
        fn next_u64(&mut self) -> u64 {
            self.0 += 1;
            self.0
        }
    }
    let mut rng = Fixed(0);
    let pts = gen_points(3, &p(100, 100), &mut rng).expect("sampling failed");
    assert_eq!(pts.len(), 3);
    // Draws are reduced modulo the bounds: 1..=6 give these lattice points.
    assert!(pts.contains(&p(1, 2)));
    assert!(pts.contains(&p(3, 4)));
    assert!(pts.contains(&p(5, 6)));
}

#[test]
fn graph_edge_weights_are_reachable() {
    let mut g: UnGraph<&'static str, BorderEdge> = UnGraph::new_undirected();
    let a = g.add_node("a");
    let b = g.add_node("b");
    let e = g.add_edge(a, b, BorderEdge { region_edge: None, regions: vec![0] });
    assert_eq!(g.edges[e].weight.regions, vec![0]);
    assert!(matches!(g.edges[e], GraphEdge { source: 0, target: 1, .. }));
}
