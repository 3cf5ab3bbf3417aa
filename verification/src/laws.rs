//! Properties of the model proved once and for all: additive delta
//! application is order-independent, a lone downhill transfer conserves
//! water, the erosion threshold is a strict boundary, the sink correction
//! damps without overshooting, and a full-rate precipitation draw always
//! falls.

use vstd::prelude::*;

use crate::default_flow::sink_delta_spec;
use crate::default_flow::DefaultFlow;
use crate::fixed::SCALE;
use crate::terrain::apply_delta_spec;
use crate::terrain::apply_deltas_spec;
use crate::terrain::lemma_apply_preserves_len;
use crate::terrain::lemma_apply_preserves_structure;
use crate::terrain::Cell;
use crate::terrain::TerrainDelta;

verus! {

/// What one delta adds to the height of cell `i`.
pub open spec fn h_contrib(d: TerrainDelta, i: int) -> int {
    if d.cell_index as int == i {
        d.height_delta as int
    } else {
        0
    }
}

/// What one delta adds to the water depth of cell `i`.
pub open spec fn d_contrib(d: TerrainDelta, i: int) -> int {
    if d.cell_index as int == i {
        d.depth_delta as int
    } else {
        0
    }
}

/// Net height change a delta list requests for cell `i`.
pub open spec fn height_sum(ds: Seq<TerrainDelta>, i: int) -> int
    decreases ds.len(),
{
    if ds.len() == 0 {
        0
    } else {
        h_contrib(ds[0], i) + height_sum(ds.skip(1), i)
    }
}

/// Net depth change a delta list requests for cell `i`.
pub open spec fn depth_sum(ds: Seq<TerrainDelta>, i: int) -> int
    decreases ds.len(),
{
    if ds.len() == 0 {
        0
    } else {
        d_contrib(ds[0], i) + depth_sum(ds.skip(1), i)
    }
}

/// Every intermediate value of applying the list in order stays inside the
/// i64 range, so no application step saturates.
pub open spec fn application_in_range(cells: Seq<Cell>, ds: Seq<TerrainDelta>) -> bool
    decreases ds.len(),
{
    if ds.len() == 0 {
        true
    } else {
        let d = ds[0];
        let step_ok = d.cell_index < cells.len() ==> {
            let c = cells[d.cell_index as int];
            i64::MIN <= c.height + d.height_delta <= i64::MAX && i64::MIN <= c.depth
                + d.depth_delta <= i64::MAX
        };
        step_ok && application_in_range(apply_delta_spec(cells, d), ds.skip(1))
    }
}

/// Application is a sum: when no step saturates, each cell ends at its
/// starting value plus the net change the list requests for it.
pub proof fn lemma_apply_is_sum(cells: Seq<Cell>, ds: Seq<TerrainDelta>, i: int)
    requires
        application_in_range(cells, ds),
        0 <= i < cells.len(),
    ensures
        apply_deltas_spec(cells, ds)[i].height as int == cells[i].height + height_sum(ds, i),
        apply_deltas_spec(cells, ds)[i].depth as int == cells[i].depth + depth_sum(ds, i),
    decreases ds.len(),
{
    if ds.len() > 0 {
        let c1 = apply_delta_spec(cells, ds[0]);
        assert(c1[i].height as int == cells[i].height + h_contrib(ds[0], i));
        assert(c1[i].depth as int == cells[i].depth + d_contrib(ds[0], i));
        lemma_apply_is_sum(c1, ds.skip(1), i);
    }
}

/// Removing one element removes exactly its contribution from the sums.
proof fn lemma_sum_remove(ds: Seq<TerrainDelta>, j: int, i: int)
    requires
        0 <= j < ds.len(),
    ensures
        height_sum(ds.remove(j), i) == height_sum(ds, i) - h_contrib(ds[j], i),
        depth_sum(ds.remove(j), i) == depth_sum(ds, i) - d_contrib(ds[j], i),
    decreases j,
{
    if j == 0 {
        assert(ds.remove(0) =~= ds.skip(1));
    } else {
        assert(ds.remove(j).skip(1) =~= ds.skip(1).remove(j - 1));
        assert(ds.remove(j)[0] == ds[0]);
        assert(ds.skip(1)[j - 1] == ds[j]);
        lemma_sum_remove(ds.skip(1), j - 1, i);
    }
}

/// Two lists with the same multiset of deltas request the same net change
/// for every cell.
proof fn lemma_sum_permutation(ds1: Seq<TerrainDelta>, ds2: Seq<TerrainDelta>, i: int)
    requires
        ds1.to_multiset() == ds2.to_multiset(),
    ensures
        height_sum(ds1, i) == height_sum(ds2, i),
        depth_sum(ds1, i) == depth_sum(ds2, i),
    decreases ds1.len(),
{
    ds1.to_multiset_ensures();
    ds2.to_multiset_ensures();
    if ds1.len() == 0 {
        assert(ds2.len() == 0);
    } else {
        let j = ds1.len() - 1;
        let d = ds1[j as int];
        assert(ds1.contains(d));
        assert(ds1.to_multiset().count(d) > 0);
        assert(ds2.contains(d));
        let k = choose|k: int| 0 <= k < ds2.len() && ds2[k] == d;
        assert(ds1.remove(j as int).to_multiset() =~= ds2.remove(k).to_multiset());
        lemma_sum_permutation(ds1.remove(j as int), ds2.remove(k), i);
        lemma_sum_remove(ds1, j as int, i);
        lemma_sum_remove(ds2, k, i);
    }
}

/// Order independence of delta application: two delta lists that are
/// permutations of each other drive the terrain to the same state, as long
/// as neither order saturates an intermediate value (with unbounded real
/// arithmetic no step ever saturates; an input built to pin a value against
/// the representable range can make the two orders differ there).
pub proof fn lemma_delta_order_independent(
    cells: Seq<Cell>,
    ds1: Seq<TerrainDelta>,
    ds2: Seq<TerrainDelta>,
)
    requires
        ds1.to_multiset() == ds2.to_multiset(),
        application_in_range(cells, ds1),
        application_in_range(cells, ds2),
    ensures
        apply_deltas_spec(cells, ds1) == apply_deltas_spec(cells, ds2),
{
    let r1 = apply_deltas_spec(cells, ds1);
    let r2 = apply_deltas_spec(cells, ds2);
    lemma_apply_preserves_len(cells, ds1);
    lemma_apply_preserves_len(cells, ds2);
    lemma_apply_preserves_structure(cells, ds1);
    lemma_apply_preserves_structure(cells, ds2);
    assert forall|i: int| 0 <= i < cells.len() implies r1[i] == r2[i] by {
        lemma_apply_is_sum(cells, ds1, i);
        lemma_apply_is_sum(cells, ds2, i);
        lemma_sum_permutation(ds1, ds2, i);
    }
    assert(r1 =~= r2);
}

/// Nothing happens over a range of neighbors that contribute nothing.
proof fn lemma_quiet_range(f: DefaultFlow, t: Seq<Cell>, c: Cell, a: int, b: int)
    requires
        0 <= a <= b,
        forall|m: int|
            a <= m < b ==> f.nb_depth_delta(t, c, m) <= 0 && f.nb_height_delta(t, c, m) <= 0,
    ensures
        f.nb_deltas_upto(t, c, b) == f.nb_deltas_upto(t, c, a),
        f.self_acc(t, c, b) == f.self_acc(t, c, a),
    decreases b - a,
{
    if b > a {
        lemma_quiet_range(f, t, c, a, b - 1);
    }
}

/// Conservation of transferred water: when exactly one neighbor receives a
/// positive flow transfer and nothing else moves, the step emits exactly
/// two records, and the neighbor's depth gain equals the source's depth
/// loss.
pub proof fn lemma_flow_conservation(f: DefaultFlow, t: Seq<Cell>, ci: int, k: int)
    requires
        0 <= ci < t.len() <= usize::MAX,
        0 <= k < t[ci].neighbor_data@.len(),
        f.nb_depth_delta(t, t[ci], k) > 0,
        forall|m: int|
            0 <= m < t[ci].neighbor_data@.len() && m != k ==> f.nb_depth_delta(t, t[ci], m) <= 0,
        forall|m: int|
            0 <= m < t[ci].neighbor_data@.len() ==> f.nb_height_delta(t, t[ci], m) <= 0,
    ensures
        ({
            let ds = f.flow_deltas_spec(t, ci, false);
            &&& ds.len() == 2
            &&& ds[0].cell_index == t[ci].neighbor_data@[k].index
            &&& ds[1].cell_index as int == ci
            &&& ds[0].depth_delta > 0
            &&& ds[0].depth_delta as int + ds[1].depth_delta as int == 0
        }),
{
    let c = t[ci];
    let n = c.neighbor_data@.len() as int;
    lemma_quiet_range(f, t, c, 0, k);
    lemma_quiet_range(f, t, c, k + 1, n);
    assert(f.nb_deltas_upto(t, c, k) == Seq::<TerrainDelta>::empty() && f.self_acc(t, c, k) == (
    0int,
    0int,
    false,
    )) by {
        lemma_quiet_range(f, t, c, 0, k);
        assert(f.nb_deltas_upto(t, c, 0) =~= Seq::<TerrainDelta>::empty());
    }
    assert(f.nb_deltas_upto(t, c, k + 1) == Seq::<TerrainDelta>::empty().push(
        f.nb_delta_at(t, c, k),
    ));
    assert(f.nb_deltas_upto(t, c, n) =~= seq![f.nb_delta_at(t, c, k)]);
    assert(f.self_acc(t, c, n) == f.self_acc(t, c, k + 1));
}

/// The erosion threshold is a strict boundary: a neighbor whose height
/// slope equals the threshold exactly is excluded; one fixed-point unit
/// above it is included.
pub proof fn lemma_erosion_threshold_boundary(f: DefaultFlow, c: Cell, n: Cell, dist: int)
    requires
        dist > 0,
    ensures
        crate::fixed::fp_div_spec(f.erosion_diff(c, n), dist) == f.erosion_threshold
            ==> f.erosion_tw(c, n, dist) is None,
        crate::fixed::fp_div_spec(f.erosion_diff(c, n), dist) == f.erosion_threshold + 1
            ==> f.erosion_tw(c, n, dist) is Some,
{
}

/// Sink damping: one sink correction moves a negative height at least half
/// way toward zero (up to one fixed-point unit of rounding) and never past
/// it, and likewise moves standing water above one whole unit half way
/// down toward one unit and never below it.
pub proof fn lemma_sink_damping(c: Cell, ci: int)
    ensures
        c.height < 0 ==> ({
            let nh = c.height + sink_delta_spec(c, ci).height_delta;
            &&& c.height <= nh <= 0
            &&& 2 * nh >= c.height - 1
        }),
        c.depth > SCALE ==> ({
            let nd = c.depth + sink_delta_spec(c, ci).depth_delta;
            &&& SCALE <= nd <= c.depth
            &&& 2 * nd <= c.depth + SCALE + 1
        }),
        c.height >= 0 ==> sink_delta_spec(c, ci).height_delta == 0,
        c.depth <= SCALE ==> sink_delta_spec(c, ci).depth_delta == 0,
{
}

/// A precipitation rate of one whole unit (or more) precipitates on every
/// draw, with exactly the configured amount.
pub proof fn lemma_guaranteed_precipitation(f: DefaultFlow, draw: u64)
    requires
        f.precipitation_rate >= SCALE,
    ensures
        f.precip_spec(draw) == Some(f.precipitation_amount),
{
    assert((draw as int) % (SCALE as int) < SCALE as int) by {
        vstd::arithmetic::div_mod::lemma_mod_bound(draw as int, SCALE as int);
    }
}

/// A cell none of whose neighbors receives anything, under a successful
/// precipitation draw, contributes exactly one record: its own depth grows
/// by exactly the precipitation amount.
pub proof fn lemma_precipitation_only(f: DefaultFlow, t: Seq<Cell>, ci: int)
    requires
        0 <= ci < t.len() <= usize::MAX,
        forall|m: int|
            0 <= m < t[ci].neighbor_data@.len() ==> f.nb_depth_delta(t, t[ci], m) <= 0
                && f.nb_height_delta(t, t[ci], m) <= 0,
    ensures
        f.flow_deltas_spec(t, ci, true) =~= seq![
            (TerrainDelta {
                cell_index: ci as usize,
                height_delta: 0,
                depth_delta: f.precipitation_amount,
            }),
        ],
{
    let c = t[ci];
    let n = c.neighbor_data@.len() as int;
    lemma_quiet_range(f, t, c, 0, n);
    assert(f.nb_deltas_upto(t, c, 0) =~= Seq::<TerrainDelta>::empty());
}

} // verus!
