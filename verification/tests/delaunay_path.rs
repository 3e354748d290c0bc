use dual_graph::delaunay::gen_voronoi_delaunay;
use dual_graph::geom::Pos;
use dual_graph::rng::XorShiftRng;

const SCALE: i64 = 1000;

#[test]
fn gen_voronoi_delaunay_test() {
    let dims = Pos { x: 1024 * SCALE, y: 1024 * SCALE };
    let mut rng = XorShiftRng::from_seed([1, 2, 3, 4, 1, 2, 3, 4, 1, 2, 3, 4, 1, 2, 3, 4]);
    let (seed_points, voronoi_points, voronoi_polys) =
        gen_voronoi_delaunay::<XorShiftRng>(&dims, 100, 0, &mut rng).expect("triangulation failed");
    assert_eq!(seed_points.len(), 100);
    assert!(voronoi_points.len() > 0);
    assert!(voronoi_polys.len() > 0);
    // Interior sites' polygons: rings of triangle centroids inside the box.
    for poly in &voronoi_polys {
        assert!(poly.len() >= 3, "an interior cell has at least three corners");
        for q in poly {
            assert!(0 <= q.x && q.x <= dims.x);
            assert!(0 <= q.y && q.y <= dims.y);
        }
    }
    // Hull-adjacent sites are skipped, so there are fewer polygons than sites.
    assert!(voronoi_polys.len() < 100);
}

#[test]
fn delaunay_relaxation_is_reproducible() {
    let dims = Pos { x: 512 * SCALE, y: 512 * SCALE };
    let seed = [11, 22, 33, 44, 55, 66, 77, 88, 99, 110, 121, 132, 143, 154, 165, 176];
    let mut rng1 = XorShiftRng::from_seed(seed);
    let mut rng2 = XorShiftRng::from_seed(seed);
    let a = gen_voronoi_delaunay::<XorShiftRng>(&dims, 50, 2, &mut rng1).expect("run one");
    let b = gen_voronoi_delaunay::<XorShiftRng>(&dims, 50, 2, &mut rng2).expect("run two");
    assert_eq!(a.0, b.0);
    assert_eq!(a.1, b.1);
    assert_eq!(a.2, b.2);
}
