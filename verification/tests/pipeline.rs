use dual_graph::dual::{gen_dual_graph, BorderGraph, RegionGraph};
use dual_graph::geom::{GenError, Pos};
use dual_graph::rng::XorShiftRng;

/// One thousand coordinate units per world unit.
const SCALE: i64 = 1000;

fn world(units: i64) -> f64 {
    units as f64 / SCALE as f64
}

/// Re-checks every dual-graph invariant on a concrete pair of graphs.
fn check_invariants(rg: &RegionGraph<()>, bg: &BorderGraph<()>) {
    // Duality, both directions; hull edges bare; conservation.
    let mut interior = 0;
    for (j, e) in bg.edges.iter().enumerate() {
        assert!(e.weight.regions.len() == 1 || e.weight.regions.len() == 2);
        if e.weight.regions.len() == 2 {
            interior += 1;
            let r = e.weight.region_edge.expect("interior border edge must have a dual");
            let re = &rg.edges[r];
            assert_eq!(re.weight.border_edge, Some(j));
            let (a, b) = (e.weight.regions[0], e.weight.regions[1]);
            assert!(a != b);
            assert!(
                (re.source == a && re.target == b) || (re.source == b && re.target == a),
                "dual region edge must join the wall's two regions"
            );
        } else {
            assert!(e.weight.region_edge.is_none(), "hull edge must have no dual");
        }
    }
    assert_eq!(rg.edges.len(), interior, "one region edge per interior border edge");
    for (i, re) in rg.edges.iter().enumerate() {
        let b = re.weight.border_edge.expect("every region edge is dual to a wall");
        assert_eq!(bg.edges[b].weight.region_edge, Some(i));
        assert_eq!(re.weight.borders, vec![bg.edges[b].source, bg.edges[b].target]);
    }
    // No parallel edges in either graph.
    for (i, e1) in rg.edges.iter().enumerate() {
        for e2 in rg.edges.iter().skip(i + 1) {
            assert!(
                !((e1.source == e2.source && e1.target == e2.target) || (e1.source == e2.target
                    && e1.target == e2.source))
            );
        }
    }
    for (i, e1) in bg.edges.iter().enumerate() {
        for e2 in bg.edges.iter().skip(i + 1) {
            assert!(
                !((e1.source == e2.source && e1.target == e2.target) || (e1.source == e2.target
                    && e1.target == e2.source))
            );
        }
    }
    // Incidence symmetry.
    for (r, rn) in rg.nodes.iter().enumerate() {
        for &b in &rn.borders {
            assert!(bg.nodes[b].regions.contains(&r));
        }
    }
    for (b, bn) in bg.nodes.iter().enumerate() {
        for &r in &bn.regions {
            assert!(rg.nodes[r].borders.contains(&b));
        }
    }
    // Centroid law, with the world-unit tolerance.
    for rn in &rg.nodes {
        assert!(!rn.borders.is_empty());
        let mut sx = 0.0;
        let mut sy = 0.0;
        for &b in &rn.borders {
            sx += world(bg.nodes[b].pos.x);
            sy += world(bg.nodes[b].pos.y);
        }
        let n = rn.borders.len() as f64;
        assert!((world(rn.pos.x) - sx / n).abs() < 1e-3);
        assert!((world(rn.pos.y) - sy / n).abs() < 1e-3);
    }
}

#[test]
fn gen_dual_graph_test() {
    let dims = Pos { x: 1024 * SCALE, y: 1024 * SCALE };
    let mut rng = XorShiftRng::from_seed([
        122, 154, 21, 182, 159, 131, 187, 243, 134, 230, 110, 10, 31, 174, 6, 4,
    ]);
    let (rg, bg) = gen_dual_graph::<(), (), _>(dims, 8000, 2, &mut rng).expect("pipeline failed");
    assert!(rg.nodes.len() > 0 && bg.nodes.len() > 0);
    // Some sites merge under relaxation, but most cells survive.
    assert!(rg.nodes.len() > 7600 && rg.nodes.len() <= 8000, "got {}", rg.nodes.len());
    check_invariants(&rg, &bg);
}

#[test]
fn hundred_points_no_relaxation() {
    let dims = Pos { x: 1024 * SCALE, y: 1024 * SCALE };
    let mut rng = XorShiftRng::from_seed([1, 2, 3, 4, 1, 2, 3, 4, 1, 2, 3, 4, 1, 2, 3, 4]);
    let (rg, bg) = gen_dual_graph::<(), (), _>(dims, 100, 0, &mut rng).expect("pipeline failed");
    assert!(rg.nodes.len() > 0 && bg.nodes.len() > 0);
    for rn in &rg.nodes {
        assert!(rn.borders.len() >= 3, "a cell is a polygon with at least three corners");
        assert!(0 <= rn.pos.x && rn.pos.x <= 1024 * SCALE);
        assert!(0 <= rn.pos.y && rn.pos.y <= 1024 * SCALE);
    }
    check_invariants(&rg, &bg);
}

#[test]
fn two_points() {
    let dims = Pos { x: 10 * SCALE, y: 10 * SCALE };
    let mut rng = XorShiftRng::from_seed([9, 8, 7, 6, 5, 4, 3, 2, 1, 0, 1, 2, 3, 4, 5, 6]);
    let (rg, bg) = gen_dual_graph::<(), (), _>(dims, 2, 0, &mut rng).expect("pipeline failed");
    assert_eq!(rg.nodes.len(), 2);
    assert_eq!(rg.edges.len(), 1);
    let mut interior = 0;
    for e in &bg.edges {
        match e.weight.regions.len() {
            1 => assert!(e.weight.region_edge.is_none()),
            2 => interior += 1,
            n => panic!("a wall with {} regions", n),
        }
    }
    assert_eq!(interior, 1, "exactly one wall separates the two cells");
    check_invariants(&rg, &bg);
}

#[test]
fn empty_domain_no_relaxation_gives_empty_graphs() {
    let dims = Pos { x: 1024 * SCALE, y: 1024 * SCALE };
    let mut rng = XorShiftRng::from_seed([1; 16]);
    let (rg, bg) = gen_dual_graph::<(), (), _>(dims, 0, 0, &mut rng).expect("no error expected");
    assert_eq!(rg.nodes.len(), 0);
    assert_eq!(rg.edges.len(), 0);
    assert_eq!(bg.nodes.len(), 0);
    assert_eq!(bg.edges.len(), 0);
}

#[test]
fn relaxation_without_points_is_invalid() {
    let dims = Pos { x: 1024 * SCALE, y: 1024 * SCALE };
    let mut rng = XorShiftRng::from_seed([1; 16]);
    let r = gen_dual_graph::<(), (), _>(dims, 0, 1, &mut rng);
    assert_eq!(r.err(), Some(GenError::InvalidDomain));
}

#[test]
fn non_positive_domain_is_invalid() {
    let mut rng = XorShiftRng::from_seed([1; 16]);
    let r = gen_dual_graph::<(), (), _>(Pos { x: 0, y: 10 * SCALE }, 5, 0, &mut rng);
    assert_eq!(r.err(), Some(GenError::InvalidDomain));
    let r = gen_dual_graph::<(), (), _>(Pos { x: 10 * SCALE, y: -3 }, 5, 0, &mut rng);
    assert_eq!(r.err(), Some(GenError::InvalidDomain));
}

#[test]
fn determinism_two_runs() {
    let dims = Pos { x: 512 * SCALE, y: 512 * SCALE };
    let seed = [42, 1, 99, 7, 3, 3, 3, 3, 250, 0, 0, 1, 17, 23, 29, 31];
    let mut rng1 = XorShiftRng::from_seed(seed);
    let mut rng2 = XorShiftRng::from_seed(seed);
    let (rg1, bg1) = gen_dual_graph::<(), (), _>(dims, 500, 1, &mut rng1).expect("run one");
    let (rg2, bg2) = gen_dual_graph::<(), (), _>(dims, 500, 1, &mut rng2).expect("run two");
    assert_eq!(rg1.nodes.len(), rg2.nodes.len());
    assert_eq!(rg1.edges.len(), rg2.edges.len());
    assert_eq!(bg1.nodes.len(), bg2.nodes.len());
    assert_eq!(bg1.edges.len(), bg2.edges.len());
    for (a, b) in rg1.nodes.iter().zip(rg2.nodes.iter()) {
        assert_eq!(a.pos, b.pos);
        assert_eq!(a.borders, b.borders);
    }
    for (a, b) in bg1.nodes.iter().zip(bg2.nodes.iter()) {
        assert_eq!(a.pos, b.pos);
        assert_eq!(a.regions, b.regions);
    }
    for (a, b) in rg1.edges.iter().zip(rg2.edges.iter()) {
        assert_eq!((a.source, a.target), (b.source, b.target));
        assert_eq!(a.weight.border_edge, b.weight.border_edge);
        assert_eq!(a.weight.borders, b.weight.borders);
    }
    for (a, b) in bg1.edges.iter().zip(bg2.edges.iter()) {
        assert_eq!((a.source, a.target), (b.source, b.target));
        assert_eq!(a.weight.region_edge, b.weight.region_edge);
        assert_eq!(a.weight.regions, b.weight.regions);
    }
}
