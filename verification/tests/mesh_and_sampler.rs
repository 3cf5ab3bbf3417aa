use terraflow::fixed::SCALE;
use terraflow::point::Point;
use terraflow::point_gen::Bounds;
use terraflow::point_gen::PointGenerator;
use terraflow::point_gen::PointsReader;
use terraflow::point_gen::PointsWriter;
use terraflow::terrain::distance;
use terraflow::terrain::Terrain;

fn fp(v: f64) -> i64 {
    (v * SCALE as f64).round() as i64
}

fn triangulate_fixed(points: &[Point]) -> Vec<usize> {
    let del_points: Vec<delaunator::Point> = points
        .iter()
        .map(|p| delaunator::Point {
            x: p.x as f64 / SCALE as f64,
            y: p.y as f64 / SCALE as f64,
        })
        .collect();
    delaunator::triangulate(&del_points).triangles
}

#[test]
fn distance_is_exact_euclidean() {
    let a = Point { x: 0, y: 0 };
    let b = Point { x: fp(3.0), y: fp(4.0) };
    assert_eq!(distance(&a, &b), fp(5.0));
    let c = Point { x: fp(-3.0), y: fp(-4.0) };
    assert_eq!(distance(&a, &c), fp(5.0));
    // sqrt(2) rounded down at fixed-point resolution
    let d = Point { x: fp(1.0), y: fp(1.0) };
    assert_eq!(distance(&a, &d), 1_414_213);
}

#[test]
fn bounds_are_half_open() {
    let b = Bounds::new(0, fp(10.0));
    assert!(b.contains(0));
    assert!(b.contains(fp(10.0) - 1));
    assert!(!b.contains(fp(10.0)));
    assert!(!b.contains(-1));
}

#[test]
fn square_mesh_edges_are_symmetric_and_deduplicated() {
    // The four corners of a unit square, triangulated into two triangles.
    let points = vec![
        Point { x: 0, y: 0 },
        Point { x: SCALE, y: 0 },
        Point { x: SCALE, y: SCALE },
        Point { x: 0, y: SCALE },
    ];
    let triangles = triangulate_fixed(&points);
    assert_eq!(triangles.len(), 6);
    let n = points.len();
    let terrain = Terrain::generate(points.clone(), vec![0; n], vec![0; n], &triangles);
    assert_eq!(terrain.cells_len(), 4);

    let diag = 1_414_213i64;
    // whichever diagonal the triangulator chose, its two endpoints see all
    // three other corners; the remaining two corners see only their two
    // square-adjacent ones
    let mut diagonal_cells = 0;
    for i in 0..4 {
        let cell = terrain.get_cell(i);
        assert!(cell.neighbor_len() == 2 || cell.neighbor_len() == 3);
        if cell.neighbor_len() == 3 {
            diagonal_cells += 1;
        }
        let mut seen = Vec::new();
        for k in 0..cell.neighbor_len() {
            let nd = cell.get_neighbor(k);
            assert!(nd.index() < 4);
            assert_ne!(nd.index(), i);
            assert!(!seen.contains(&nd.index()), "duplicate neighbor");
            seen.push(nd.index());
            // edge length is exactly 1.0 for square-adjacent corners and
            // exactly the rounded-down sqrt(2) for the diagonal
            let expected = distance(&terrain.get_cell(i).location, &terrain.get_cell(nd.index()).location);
            assert_eq!(nd.distance(), expected);
            assert!(nd.distance() == SCALE || nd.distance() == diag);
            // symmetry: the neighbor lists this cell at the same distance
            let back = terrain.get_cell(nd.index());
            let mut found = false;
            for k2 in 0..back.neighbor_len() {
                let nd2 = back.get_neighbor(k2);
                if nd2.index() == i {
                    assert_eq!(nd2.distance(), nd.distance());
                    found = true;
                }
            }
            assert!(found, "edge not symmetric");
        }
    }
    assert_eq!(diagonal_cells, 2);
    // the four sides plus one diagonal: 5 undirected edges, each recorded
    // once in each direction
    let total: usize = (0..4).map(|i| terrain.get_cell(i).neighbor_len()).sum();
    assert_eq!(total, 10);
    let diagonals: usize = (0..4)
        .map(|i| {
            let cell = terrain.get_cell(i);
            (0..cell.neighbor_len()).filter(|&k| cell.get_neighbor(k).distance() == diag).count()
        })
        .sum();
    assert_eq!(diagonals, 2);
}

#[test]
fn sampler_first_point_is_center() {
    let mut g = PointGenerator::new(Bounds::new(0, fp(10.0)), Bounds::new(0, fp(20.0)), fp(1.0));
    let p = g.next_point().expect("first point");
    assert_eq!(p, Point { x: fp(5.0), y: fp(10.0) });
}

#[test]
fn sampler_keeps_spacing_and_bounds() {
    let min_spacing = fp(2.0);
    let mut g = PointGenerator::new(Bounds::new(0, fp(10.0)), Bounds::new(0, fp(10.0)), min_spacing);
    let mut pts: Vec<Point> = Vec::new();
    while let Some(p) = g.next_point() {
        pts.push(p);
        assert!(pts.len() < 10_000, "sampler failed to terminate");
    }
    // the sequence is not restartable: once saturated it stays exhausted
    assert!(g.next_point().is_none());
    // the 10x10 box at spacing 2 holds the center plus several more
    assert!(pts.len() > 1, "expected more than the initial point");
    for p in &pts {
        assert!(0 <= p.x && p.x < fp(10.0));
        assert!(0 <= p.y && p.y < fp(10.0));
    }
    for i in 0..pts.len() {
        for j in 0..pts.len() {
            if i != j {
                let dx = (pts[i].x - pts[j].x) as i128;
                let dy = (pts[i].y - pts[j].y) as i128;
                assert!(
                    dx * dx + dy * dy >= (min_spacing as i128) * (min_spacing as i128),
                    "points too close"
                );
            }
        }
    }
}

#[test]
fn probe_walk_takes_first_open_direction() {
    let min_spacing = fp(2.0);
    let g = PointGenerator::new(Bounds::new(0, fp(10.0)), Bounds::new(0, fp(10.0)), min_spacing);
    let anchor = Point { x: fp(5.0), y: fp(5.0) };
    // ring direction 0 is (1, 0): with an empty proximity index the very
    // first probe must be accepted
    let p = g.probe_candidates(&anchor, 0, false).expect("open direction");
    assert_eq!(p, Point { x: fp(7.0), y: fp(5.0) });
    // walking the other way from base 25 starts at (0, 1)
    let q = g.probe_candidates(&anchor, 25, true).expect("open direction");
    assert_eq!(q, Point { x: fp(5.0), y: fp(7.0) });
}

#[test]
fn cache_roundtrip_and_partial_trailing_record() {
    let pts = vec![
        Point { x: 0, y: 0 },
        Point { x: fp(1.5), y: fp(-2.25) },
        Point { x: i64::MAX, y: i64::MIN },
    ];
    let mut w = PointsWriter::new();
    let n = w.write_points(&pts);
    assert_eq!(n, 3);
    assert_eq!(w.data().len(), 48);

    let mut bytes = w.data().clone();
    bytes.extend_from_slice(&[1, 2, 3, 4, 5]); // partial trailing record
    let mut r = PointsReader::new(bytes);
    let mut back = Vec::new();
    while let Some(p) = r.next_point() {
        back.push(p);
    }
    assert_eq!(back, pts);
}

#[test]
fn cache_record_layout_is_little_endian() {
    let mut w = PointsWriter::new();
    let n = w.write_points(&vec![Point { x: 1, y: -1 }]);
    assert_eq!(n, 1);
    let data = w.data();
    assert_eq!(&data[0..8], &[1, 0, 0, 0, 0, 0, 0, 0]);
    assert_eq!(&data[8..16], &[0xff; 8]);
}
