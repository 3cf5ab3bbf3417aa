use terraflow::default_flow::aggregate_transfer_weights;
use terraflow::default_flow::DefaultFlow;
use terraflow::default_flow::TransferWeight;
use terraflow::fixed::SCALE;
use terraflow::flow::FlowEngine;
use terraflow::point::Point;
use terraflow::terrain::Cell;
use terraflow::terrain::Terrain;
use terraflow::terrain::TerrainDelta;

fn fp(v: f64) -> i64 {
    (v * SCALE as f64).round() as i64
}

fn model(
    flow_rate: f64,
    flow_erosion_rate: f64,
    erosion_threshold: f64,
    erosion_rate: f64,
    precipitation_rate: f64,
    precipitation_amount: f64,
) -> DefaultFlow {
    DefaultFlow::new(
        fp(flow_rate),
        fp(flow_erosion_rate),
        fp(erosion_threshold),
        fp(erosion_rate),
        fp(precipitation_rate),
        fp(precipitation_amount),
    )
}

/// Three cells in one triangle; attribute values chosen per test.
fn triangle_terrain(heights: Vec<i64>, depths: Vec<i64>) -> Terrain {
    let points = vec![
        Point { x: 0, y: 0 },
        Point { x: fp(1.0), y: 0 },
        Point { x: 0, y: fp(1.0) },
    ];
    let del: Vec<delaunator::Point> = points
        .iter()
        .map(|p| delaunator::Point {
            x: p.x as f64 / SCALE as f64,
            y: p.y as f64 / SCALE as f64,
        })
        .collect();
    let triangles = delaunator::triangulate(&del).triangles;
    assert_eq!(triangles.len(), 3);
    Terrain::generate(points, heights, depths, &triangles)
}

#[test]
fn flow_weight_is_cubed_slope_with_capped_availability() {
    let f = model(0.9, 1.0, 0.2, 0.5, 0.5, 0.01);
    let c = Cell::new(Point { x: 0, y: 0 }, fp(2.0), fp(1.0));
    let n = Cell::new(Point { x: fp(1.0), y: 0 }, 0, 0);
    // diff = 3.0, slope = 3.0, weight = 27.0, available = min(1.0, 1.5)
    let w = f.calc_flow_weight(&c, &n, fp(1.0)).expect("downhill");
    assert_eq!(w.weight, fp(27.0));
    assert_eq!(w.available, fp(1.0));
}

#[test]
fn flow_weight_rejects_level_and_uphill_surfaces() {
    let f = model(0.9, 1.0, 0.2, 0.5, 0.5, 0.01);
    let c = Cell::new(Point { x: 0, y: 0 }, fp(1.0), 0);
    let level = Cell::new(Point { x: fp(1.0), y: 0 }, fp(1.0), 0);
    let uphill = Cell::new(Point { x: fp(1.0), y: 0 }, fp(2.0), 0);
    assert!(f.calc_flow_weight(&c, &level, fp(1.0)).is_none());
    assert!(f.calc_flow_weight(&c, &uphill, fp(1.0)).is_none());
}

#[test]
fn erosion_threshold_is_strict() {
    // threshold 0.2 over distance 1.0: a height difference of exactly 0.2
    // is excluded; one fixed-point unit more is included
    let f = model(0.9, 1.0, 0.2, 0.5, 0.5, 0.01);
    let c_at = Cell::new(Point { x: 0, y: 0 }, fp(0.2), 0);
    let c_above = Cell::new(Point { x: 0, y: 0 }, fp(0.2) + 1, 0);
    let n = Cell::new(Point { x: fp(1.0), y: 0 }, 0, 0);
    assert!(f.calc_erosion_weight(&c_at, &n, fp(1.0)).is_none());
    let w = f.calc_erosion_weight(&c_above, &n, fp(1.0)).expect("above threshold");
    assert_eq!(w.weight, fp(0.2) + 1);
    assert_eq!(w.available, (fp(0.2) + 1) / 2);
}

#[test]
fn aggregation_sums_weights_and_takes_tightest_cap() {
    let ws = vec![
        Some(TransferWeight { weight: fp(2.0), available: fp(5.0) }),
        None,
        Some(TransferWeight { weight: fp(3.0), available: fp(0.5) }),
    ];
    let agg = aggregate_transfer_weights(&ws);
    assert_eq!(agg.weight, fp(5.0));
    assert_eq!(agg.available, fp(0.5));
}

#[test]
fn single_downhill_neighbor_conserves_water() {
    // cell 0 has water and exactly one downhill neighbor (cell 1); cell 2
    // towers above it; the erosion threshold is set out of reach
    let terrain = triangle_terrain(vec![fp(3.0), 0, fp(10.0)], vec![fp(1.0), 0, 0]);
    let f = model(0.9, 0.25, 100.0, 0.5, 0.5, 0.01);
    let cell = terrain.get_cell(0);
    let deltas = f.calc_flow_deltas_with(0, cell, &terrain, false);
    assert_eq!(deltas.len(), 2);
    let neighbor = &deltas[0];
    let own = &deltas[1];
    assert_eq!(neighbor.cell_index, 1);
    assert_eq!(own.cell_index, 0);
    assert!(neighbor.depth_delta > 0);
    // the neighbor's depth gain equals the source's depth loss exactly
    assert_eq!(neighbor.depth_delta, -own.depth_delta);
    // flow does not raise the neighbor's height; the source erodes in
    // proportion to the outflow
    assert_eq!(neighbor.height_delta, 0);
    assert!(own.height_delta < 0);
    // flow rate 0.9 of the full availability (depth 1.0 caps diff/2 = 2.0):
    // 0.9 * 1.0, and source erosion at a quarter of the moved volume
    assert_eq!(neighbor.depth_delta, fp(0.9));
    assert_eq!(own.height_delta, -fp(0.225));
}

#[test]
fn guaranteed_precipitation_adds_exact_amount() {
    // rate 1.0 precipitates on every draw even though production
    // configuration keeps the rate strictly inside (0, 1)
    let terrain = triangle_terrain(vec![0, 0, 0], vec![0, 0, 0]);
    let f = DefaultFlow::new(fp(0.9), fp(1.0), fp(0.2), fp(0.5), SCALE, fp(0.01));
    for i in 0..3 {
        let deltas = f.calc_flow_deltas(i, terrain.get_cell(i), &terrain);
        assert_eq!(deltas.len(), 1);
        assert_eq!(deltas[0].cell_index, i);
        assert_eq!(deltas[0].height_delta, 0);
        assert_eq!(deltas[0].depth_delta, fp(0.01));
    }
}

#[test]
fn engine_step_applies_scaled_precipitation() {
    let terrain = triangle_terrain(vec![0, 0, 0], vec![0, 0, 0]);
    let f = DefaultFlow::new(fp(0.9), fp(1.0), fp(0.2), fp(0.5), SCALE, fp(0.01));
    let mut engine = FlowEngine::new(terrain, f);
    // half-unit time step scales every delta by one half
    engine.step(fp(0.5));
    for i in 0..3 {
        let cell = engine.terrain().get_cell(i);
        assert_eq!(cell.height(), 0);
        assert_eq!(cell.depth(), fp(0.005));
    }
}

#[test]
fn sink_correction_halves_negative_height_without_overshoot() {
    let f = model(0.9, 1.0, 0.2, 0.5, 0.5, 0.01);
    let mut h = fp(-2.0);
    for _ in 0..80 {
        let cell = Cell::new(Point { x: 0, y: 0 }, h, 0);
        let ds = f.calc_sink_deltas(7, &cell);
        assert_eq!(ds.len(), 1);
        assert_eq!(ds[0].cell_index, 7);
        assert_eq!(ds[0].depth_delta, 0);
        let nh = h + ds[0].height_delta;
        if h < 0 {
            assert!(h <= nh && nh <= 0, "overshoot past zero");
            assert!(2 * nh >= h - 1, "less than half the distance covered");
        } else {
            assert_eq!(ds[0].height_delta, 0);
        }
        h = nh;
    }
    // first step is exact: -2.0 -> -1.0
    let first = f.calc_sink_deltas(0, &Cell::new(Point { x: 0, y: 0 }, fp(-2.0), 0));
    assert_eq!(first[0].height_delta, fp(1.0));
    // converged to within one fixed-point unit of zero
    assert!(-1 <= h && h <= 0);
}

#[test]
fn sink_correction_damps_deep_water_toward_one_unit() {
    let f = model(0.9, 1.0, 0.2, 0.5, 0.5, 0.01);
    let cell = Cell::new(Point { x: 0, y: 0 }, 0, fp(3.0));
    let ds = f.calc_sink_deltas(0, &cell);
    // excess 2.0 over the 1.0 cap, damped by half
    assert_eq!(ds[0].depth_delta, -fp(1.0));
    assert_eq!(ds[0].height_delta, 0);
    let shallow = Cell::new(Point { x: 0, y: 0 }, 0, fp(1.0));
    assert_eq!(f.calc_sink_deltas(0, &shallow)[0].depth_delta, 0);
}

#[test]
fn delta_application_is_order_independent() {
    let deltas = vec![
        TerrainDelta { cell_index: 0, height_delta: fp(1.0), depth_delta: -fp(0.5) },
        TerrainDelta { cell_index: 2, height_delta: -fp(2.0), depth_delta: fp(4.0) },
        TerrainDelta { cell_index: 0, height_delta: fp(0.25), depth_delta: fp(0.125) },
        TerrainDelta { cell_index: 1, height_delta: -fp(3.0), depth_delta: 0 },
    ];
    let mut reversed = deltas.clone();
    reversed.reverse();
    let mut t1 = triangle_terrain(vec![fp(1.0), fp(2.0), fp(3.0)], vec![0, fp(1.0), fp(2.0)]);
    let mut t2 = triangle_terrain(vec![fp(1.0), fp(2.0), fp(3.0)], vec![0, fp(1.0), fp(2.0)]);
    t1.apply_deltas(&deltas);
    t2.apply_deltas(&reversed);
    for i in 0..3 {
        assert_eq!(t1.get_cell(i).height(), t2.get_cell(i).height());
        assert_eq!(t1.get_cell(i).depth(), t2.get_cell(i).depth());
    }
    assert_eq!(t1.get_cell(0).height(), fp(2.25));
    assert_eq!(t1.get_cell(0).depth(), -fp(0.375));
}

#[test]
fn delta_application_saturates_at_the_representable_range() {
    let mut t = triangle_terrain(vec![i64::MAX - 5, 0, 0], vec![0, 0, 0]);
    t.apply_delta(&TerrainDelta { cell_index: 0, height_delta: 100, depth_delta: 0 });
    assert_eq!(t.get_cell(0).height(), i64::MAX);
}

#[test]
fn full_step_emits_sink_records_for_every_cell() {
    // sunken flat terrain with no water: the only nonzero effect each step
    // is the sink correction halving every negative height
    let terrain = triangle_terrain(vec![fp(-2.0), fp(-2.0), fp(-2.0)], vec![0, 0, 0]);
    let f = model(0.9, 1.0, 100.0, 0.5, 0.000001, 0.0);
    let mut engine = FlowEngine::new(terrain, f);
    engine.step(SCALE);
    for i in 0..3 {
        assert_eq!(engine.terrain().get_cell(i).height(), fp(-1.0));
    }
}

struct NoFlow;

impl terraflow::flow::Flow for NoFlow {
    fn flow(&self, _terrain: &Terrain) -> Vec<TerrainDelta> {
        Vec::new()
    }
}

#[test]
fn engine_accepts_a_custom_strategy() {
    let terrain = triangle_terrain(vec![fp(1.0), fp(2.0), fp(3.0)], vec![0, 0, 0]);
    let mut engine = FlowEngine::new(terrain, NoFlow);
    engine.step(SCALE);
    for i in 0..3 {
        assert_eq!(engine.terrain().get_cell(i).height(), fp(i as f64 + 1.0));
        assert_eq!(engine.terrain().get_cell(i).depth(), 0);
    }
}

#[test]
fn unlinked_mesh_still_sinks_and_precipitates() {
    // a mesh may carry no triangles at all: cells then have no neighbors,
    // and a step consists of precipitation and sink corrections alone
    let points = vec![Point { x: 0, y: 0 }, Point { x: fp(1.0), y: 0 }];
    let terrain = Terrain::generate(points, vec![fp(-1.0), fp(1.0)], vec![0, fp(2.0)], &Vec::new());
    assert_eq!(terrain.cells_len(), 2);
    assert_eq!(terrain.get_cell(0).neighbor_len(), 0);
    let f = DefaultFlow::new(fp(0.9), fp(1.0), fp(0.2), fp(0.5), SCALE, fp(0.25));
    let mut engine = FlowEngine::new(terrain, f);
    engine.step(SCALE);
    // cell 0: height -1.0 halves toward zero, depth gains the rain
    assert_eq!(engine.terrain().get_cell(0).height(), fp(-0.5));
    assert_eq!(engine.terrain().get_cell(0).depth(), fp(0.25));
    // cell 1: depth 2.0 is damped halfway toward 1.0, plus the rain
    assert_eq!(engine.terrain().get_cell(1).height(), fp(1.0));
    assert_eq!(engine.terrain().get_cell(1).depth(), fp(1.75));
}
