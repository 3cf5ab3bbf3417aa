//! The hydraulic erosion model: per-cell water flow, height erosion,
//! precipitation and sink damping, computed over an immutable terrain
//! snapshot and returned as additive delta records.
//!
//! Every formula is stated exactly over fixed-point integers.  Where the
//! model divides by an aggregate weight, the distribution happens only when
//! that aggregate is positive (with real arithmetic it always is when any
//! transfer is accepted; fixed-point truncation can drive it to zero).

use vstd::prelude::*;

use crate::fixed::div_tz;
use crate::fixed::fp_div;
use crate::fixed::fp_div_spec;
use crate::fixed::fp_mul;
use crate::fixed::fp_mul_spec;
use crate::fixed::half_tz;
use crate::fixed::sat_add;
use crate::fixed::sat_add_spec;
use crate::fixed::sat_sub;
use crate::fixed::sat_sub_spec;
use crate::fixed::SCALE;
use crate::flow::Flow;
use crate::rng::random_u64;
use crate::terrain::Cell;
use crate::terrain::Terrain;
use crate::terrain::TerrainDelta;

verus! {

/// The default erosion model and its configuration.  All rates are
/// fixed-point; the external configuration layer validates them before
/// construction.
pub struct DefaultFlow {
    pub flow_rate: i64,
    pub flow_erosion_rate: i64,
    pub erosion_threshold: i64,
    pub erosion_rate: i64,
    pub precipitation_rate: i64,
    pub precipitation_amount: i64,
}

/// An unnormalized transfer propensity toward one neighbor, plus a cap on
/// how much material that path may move.
#[derive(Clone, Copy, Debug, PartialEq, Eq, Structural)]
pub struct TransferWeight {
    pub weight: i64,
    pub available: i64,
}

/// The smaller of two integers.
pub open spec fn min_int(a: int, b: int) -> int {
    if a <= b {
        a
    } else {
        b
    }
}

/// The smaller of two fixed-point values.
fn min_i64(a: i64, b: i64) -> (r: i64)
    ensures
        r as int == min_int(a as int, b as int),
{
    if a <= b {
        a
    } else {
        b
    }
}

/// Total surface height of a cell: terrain height plus standing water.
pub open spec fn surface(c: Cell) -> int {
    sat_add_spec(c.height as int, c.depth as int)
}

/// Surface difference that drives water flow.
pub open spec fn flow_diff(c: Cell, n: Cell) -> int {
    sat_sub_spec(surface(c), surface(n))
}

/// Surface slope toward a neighbor at a positive distance.
pub open spec fn flow_slope(c: Cell, n: Cell, dist: int) -> int
    recommends
        dist > 0,
{
    fp_div_spec(flow_diff(c, n), dist)
}

/// The flow transfer record toward one neighbor: accepted only downhill
/// (positive slope at a positive distance); its weight is the slope cubed
/// and its cap is the lesser of the source's water depth and half the
/// surface difference.
pub open spec fn flow_tw(c: Cell, n: Cell, dist: int) -> Option<TransferWeight> {
    if dist > 0 && flow_slope(c, n, dist) > 0 {
        Some(
            TransferWeight {
                weight: fp_mul_spec(
                    fp_mul_spec(flow_slope(c, n, dist), flow_slope(c, n, dist)),
                    flow_slope(c, n, dist),
                ) as i64,
                available: min_int(c.depth as int, div_tz(flow_diff(c, n), 2)) as i64,
            },
        )
    } else {
        None
    }
}

/// The flow transfer records of a cell, one slot per neighbor entry.
pub open spec fn flow_tws(t: Seq<Cell>, c: Cell) -> Seq<Option<TransferWeight>> {
    Seq::new(
        c.neighbor_data@.len(),
        |k: int|
            flow_tw(
                c,
                t[c.neighbor_data@[k].index as int],
                c.neighbor_data@[k].distance as int,
            ),
    )
}

/// Sum of the weights of the first `k` accepted transfers (saturating, in
/// list order).
pub open spec fn agg_weight(ws: Seq<Option<TransferWeight>>, k: int) -> int
    decreases k,
{
    if k <= 0 {
        0
    } else if ws[k - 1] is Some {
        sat_add_spec(agg_weight(ws, k - 1), ws[k - 1].unwrap().weight as int)
    } else {
        agg_weight(ws, k - 1)
    }
}

/// The tightest cap among the first `k` accepted transfers.
pub open spec fn agg_available(ws: Seq<Option<TransferWeight>>, k: int) -> int
    decreases k,
{
    if k <= 0 {
        i64::MAX as int
    } else if ws[k - 1] is Some {
        min_int(agg_available(ws, k - 1), ws[k - 1].unwrap().available as int)
    } else {
        agg_available(ws, k - 1)
    }
}

impl DefaultFlow {
    pub fn new(
        flow_rate: i64,
        flow_erosion_rate: i64,
        erosion_threshold: i64,
        erosion_rate: i64,
        precipitation_rate: i64,
        precipitation_amount: i64,
    ) -> (r: DefaultFlow)
        ensures
            r == (DefaultFlow {
                flow_rate,
                flow_erosion_rate,
                erosion_threshold,
                erosion_rate,
                precipitation_rate,
                precipitation_amount,
            }),
    {
        DefaultFlow {
            flow_rate,
            flow_erosion_rate,
            erosion_threshold,
            erosion_rate,
            precipitation_rate,
            precipitation_amount,
        }
    }

    /// Height difference that drives erosion (independent of water).
    pub open spec fn erosion_diff(&self, c: Cell, n: Cell) -> int {
        sat_sub_spec(c.height as int, n.height as int)
    }

    /// The erosion transfer record toward one neighbor: accepted only when
    /// the height slope strictly exceeds the threshold; its weight is the
    /// slope itself and its cap is half the height difference.
    pub open spec fn erosion_tw(&self, c: Cell, n: Cell, dist: int) -> Option<TransferWeight> {
        if dist > 0 && fp_div_spec(self.erosion_diff(c, n), dist) > self.erosion_threshold {
            Some(
                TransferWeight {
                    weight: fp_div_spec(self.erosion_diff(c, n), dist) as i64,
                    available: div_tz(self.erosion_diff(c, n), 2) as i64,
                },
            )
        } else {
            None
        }
    }

    /// The erosion transfer records of a cell, one slot per neighbor entry.
    pub open spec fn erosion_tws(&self, t: Seq<Cell>, c: Cell) -> Seq<Option<TransferWeight>> {
        Seq::new(
            c.neighbor_data@.len(),
            |k: int|
                self.erosion_tw(
                    c,
                    t[c.neighbor_data@[k].index as int],
                    c.neighbor_data@[k].distance as int,
                ),
        )
    }

    /// Water moved to the `k`-th neighbor: the cell's permitted outflow
    /// split by relative weight, scaled by the flow rate.  Zero unless the
    /// transfer was accepted and the aggregate weight is positive.
    pub open spec fn nb_depth_delta(&self, t: Seq<Cell>, c: Cell, k: int) -> int {
        let ws = flow_tws(t, c);
        let tot_w = agg_weight(ws, ws.len() as int);
        let tot_a = agg_available(ws, ws.len() as int);
        if ws[k] is Some && tot_w > 0 {
            fp_mul_spec(
                fp_mul_spec(fp_div_spec(ws[k].unwrap().weight as int, tot_w), tot_a),
                self.flow_rate as int,
            )
        } else {
            0
        }
    }

    /// Height deposited on the `k`-th neighbor by erosion, same pattern.
    pub open spec fn nb_height_delta(&self, t: Seq<Cell>, c: Cell, k: int) -> int {
        let ws = self.erosion_tws(t, c);
        let tot_w = agg_weight(ws, ws.len() as int);
        let tot_a = agg_available(ws, ws.len() as int);
        if ws[k] is Some && tot_w > 0 {
            fp_mul_spec(
                fp_mul_spec(fp_div_spec(ws[k].unwrap().weight as int, tot_w), tot_a),
                self.erosion_rate as int,
            )
        } else {
            0
        }
    }

    /// Whether the `k`-th neighbor receives a delta record.
    pub open spec fn nb_emits(&self, t: Seq<Cell>, c: Cell, k: int) -> bool {
        self.nb_depth_delta(t, c, k) > 0 || self.nb_height_delta(t, c, k) > 0
    }

    /// The delta record for the `k`-th neighbor: water gained by flow and
    /// height gained by deposition (each only when positive).  Flow does not
    /// raise the neighbor's height; only the erosion pass does.
    pub open spec fn nb_delta_at(&self, t: Seq<Cell>, c: Cell, k: int) -> TerrainDelta {
        TerrainDelta {
            cell_index: c.neighbor_data@[k].index,
            height_delta: (if self.nb_height_delta(t, c, k) > 0 {
                self.nb_height_delta(t, c, k)
            } else {
                0
            }) as i64,
            depth_delta: (if self.nb_depth_delta(t, c, k) > 0 {
                self.nb_depth_delta(t, c, k)
            } else {
                0
            }) as i64,
        }
    }

    /// The neighbor delta records among the first `k` neighbors, in list
    /// order.
    pub open spec fn nb_deltas_upto(&self, t: Seq<Cell>, c: Cell, k: int) -> Seq<TerrainDelta>
        decreases k,
    {
        if k <= 0 {
            Seq::empty()
        } else if self.nb_emits(t, c, k - 1) {
            self.nb_deltas_upto(t, c, k - 1).push(self.nb_delta_at(t, c, k - 1))
        } else {
            self.nb_deltas_upto(t, c, k - 1)
        }
    }

    /// The source cell's own accumulated (height, depth, any-contribution)
    /// after the first `k` neighbors: each outflow lowers its depth by the
    /// moved water and its height by that amount times the flow erosion
    /// rate; each deposition lowers its height by the deposited amount.
    pub open spec fn self_acc(&self, t: Seq<Cell>, c: Cell, k: int) -> (int, int, bool)
        decreases k,
    {
        if k <= 0 {
            (0int, 0int, false)
        } else {
            let prev = self.self_acc(t, c, k - 1);
            let dd = self.nb_depth_delta(t, c, k - 1);
            let hd = self.nb_height_delta(t, c, k - 1);
            let h1 = if dd > 0 {
                sat_sub_spec(prev.0, fp_mul_spec(dd, self.flow_erosion_rate as int))
            } else {
                prev.0
            };
            let d1 = if dd > 0 {
                sat_sub_spec(prev.1, dd)
            } else {
                prev.1
            };
            let h2 = if hd > 0 {
                sat_sub_spec(h1, hd)
            } else {
                h1
            };
            (h2, d1, prev.2 || dd > 0 || hd > 0)
        }
    }

    /// Whether a Bernoulli draw at the configured rate succeeds: the draw
    /// reduced modulo one whole unit falls below the rate, so a rate of one
    /// whole unit or more always precipitates and a rate of zero or less
    /// never does.
    pub open spec fn precip_spec(&self, draw: u64) -> Option<i64> {
        if self.precipitation_rate > 0 && (draw as int) % (SCALE as int)
            < self.precipitation_rate {
            Some(self.precipitation_amount)
        } else {
            None
        }
    }

    /// The complete delta list one cell contributes for one unscaled step
    /// (sink correction aside): the neighbor records in neighbor-list order,
    /// then the cell's own record if anything touched it.
    pub open spec fn flow_deltas_spec(&self, t: Seq<Cell>, ci: int, precip: bool) -> Seq<
        TerrainDelta,
    > {
        let c = t[ci];
        let n = c.neighbor_data@.len() as int;
        let acc = self.self_acc(t, c, n);
        let d_final = if precip {
            sat_add_spec(acc.1, self.precipitation_amount as int)
        } else {
            acc.1
        };
        let nds = self.nb_deltas_upto(t, c, n);
        if acc.2 || precip {
            nds.push(
                (TerrainDelta {
                    cell_index: ci as usize,
                    height_delta: acc.0 as i64,
                    depth_delta: d_final as i64,
                }),
            )
        } else {
            nds
        }
    }
}

/// The sink correction of one cell: a negative height is damped toward
/// zero by half, and standing water above one whole unit is damped toward
/// one whole unit by half.  Always exactly one record, possibly zero.
pub open spec fn sink_delta_spec(c: Cell, ci: int) -> TerrainDelta {
    TerrainDelta {
        cell_index: ci as usize,
        height_delta: (if c.height < 0 {
            -div_tz(c.height as int, 2)
        } else {
            0
        }) as i64,
        depth_delta: (if c.depth > SCALE {
            -div_tz(c.depth as int - SCALE, 2)
        } else {
            0
        }) as i64,
    }
}

impl DefaultFlow {
    /// The flow transfer record toward one neighbor, or nothing when the
    /// transfer is rejected.
    pub fn calc_flow_weight(&self, cell: &Cell, neighbor: &Cell, distance: i64) -> (r: Option<
        TransferWeight,
    >)
        ensures
            r == flow_tw(*cell, *neighbor, distance as int),
    {
        if distance <= 0 {
            return None;
        }
        let diff: i64 = sat_sub(
            sat_add(cell.height, cell.depth),
            sat_add(neighbor.height, neighbor.depth),
        );
        let slope: i64 = fp_div(diff, distance);
        let available: i64 = min_i64(cell.depth, half_tz(diff));
        if slope > 0 {
            Some(TransferWeight { weight: fp_mul(fp_mul(slope, slope), slope), available })
        } else {
            None
        }
    }

    /// The erosion transfer record toward one neighbor, or nothing when the
    /// slope does not exceed the threshold.
    pub fn calc_erosion_weight(&self, cell: &Cell, neighbor: &Cell, distance: i64) -> (r: Option<
        TransferWeight,
    >)
        ensures
            r == self.erosion_tw(*cell, *neighbor, distance as int),
    {
        if distance <= 0 {
            return None;
        }
        let diff: i64 = sat_sub(cell.height, neighbor.height);
        let slope: i64 = fp_div(diff, distance);
        let available: i64 = half_tz(diff);
        if slope > self.erosion_threshold {
            Some(TransferWeight { weight: slope, available })
        } else {
            None
        }
    }

    /// The flow transfer records of a cell, one slot per neighbor entry.
    pub fn calc_flow_weights(&self, terrain: &Terrain, cell: &Cell) -> (r: Vec<
        Option<TransferWeight>,
    >)
        requires
            forall|k: int|
                0 <= k < cell.neighbor_data@.len() ==> (#[trigger] cell.neighbor_data@[k].index)
                    < terrain@.len(),
        ensures
            r@ =~= flow_tws(terrain@, *cell),
    {
        let n: usize = cell.neighbor_len();
        let mut r: Vec<Option<TransferWeight>> = Vec::new();
        let mut k: usize = 0;
        while k < n
            invariant
                n == cell.neighbor_data@.len(),
                k <= n,
                r@.len() == k,
                forall|m: int|
                    0 <= m < cell.neighbor_data@.len() ==> (
                    #[trigger] cell.neighbor_data@[m].index) < terrain@.len(),
                forall|m: int| 0 <= m < k ==> r@[m] == flow_tws(terrain@, *cell)[m],
            decreases n - k,
        {
            let nd = *cell.get_neighbor(k);
            let neighbor = terrain.get_cell(nd.index);
            r.push(self.calc_flow_weight(cell, neighbor, nd.distance));
            k += 1;
        }
        r
    }

    /// The erosion transfer records of a cell, one slot per neighbor entry.
    pub fn calc_erosion_weights(&self, terrain: &Terrain, cell: &Cell) -> (r: Vec<
        Option<TransferWeight>,
    >)
        requires
            forall|k: int|
                0 <= k < cell.neighbor_data@.len() ==> (#[trigger] cell.neighbor_data@[k].index)
                    < terrain@.len(),
        ensures
            r@ =~= self.erosion_tws(terrain@, *cell),
    {
        let n: usize = cell.neighbor_len();
        let mut r: Vec<Option<TransferWeight>> = Vec::new();
        let mut k: usize = 0;
        while k < n
            invariant
                n == cell.neighbor_data@.len(),
                k <= n,
                r@.len() == k,
                forall|m: int|
                    0 <= m < cell.neighbor_data@.len() ==> (
                    #[trigger] cell.neighbor_data@[m].index) < terrain@.len(),
                forall|m: int| 0 <= m < k ==> r@[m] == self.erosion_tws(terrain@, *cell)[m],
            decreases n - k,
        {
            let nd = *cell.get_neighbor(k);
            let neighbor = terrain.get_cell(nd.index);
            r.push(self.calc_erosion_weight(cell, neighbor, nd.distance));
            k += 1;
        }
        r
    }
}

/// Fold the accepted transfers into their total weight (saturating sum)
/// and tightest cap (minimum, starting from the largest representable
/// value).
pub fn aggregate_transfer_weights(ws: &Vec<Option<TransferWeight>>) -> (r: TransferWeight)
    ensures
        r.weight as int == agg_weight(ws@, ws@.len() as int),
        r.available as int == agg_available(ws@, ws@.len() as int),
{
    let n: usize = ws.len();
    let mut weight: i64 = 0;
    let mut available: i64 = i64::MAX;
    let mut k: usize = 0;
    while k < n
        invariant
            n == ws@.len(),
            k <= n,
            weight as int == agg_weight(ws@, k as int),
            available as int == agg_available(ws@, k as int),
        decreases n - k,
    {
        if let Some(w) = ws[k] {
            weight = sat_add(weight, w.weight);
            available = min_i64(available, w.available);
        }
        k += 1;
    }
    TransferWeight { weight, available }
}

impl DefaultFlow {
    /// The sink correction record for one cell; emitted unconditionally so
    /// summation is unaffected either way.
    pub fn calc_sink_deltas(&self, cell_index: usize, cell: &Cell) -> (r: Vec<TerrainDelta>)
        ensures
            r@ =~= seq![sink_delta_spec(*cell, cell_index as int)],
    {
        let mut height_delta: i64 = 0;
        let mut depth_delta: i64 = 0;
        if cell.height < 0 {
            let q: i64 = half_tz(cell.height);
            height_delta = -q;
        }
        if cell.depth > SCALE {
            let q: i64 = half_tz(cell.depth - SCALE);
            depth_delta = -q;
        }
        vec![TerrainDelta { cell_index, height_delta, depth_delta }]
    }

    /// Whether one Bernoulli draw precipitates, and how much.
    pub fn precipitation_for_draw(&self, draw: u64) -> (r: Option<i64>)
        ensures
            r == self.precip_spec(draw),
    {
        if self.precipitation_rate <= 0 {
            return None;
        }
        let m: u64 = draw % (SCALE as u64);
        if (m as i64) < self.precipitation_rate {
            Some(self.precipitation_amount)
        } else {
            None
        }
    }

    /// One random precipitation draw for one cell and one step.  A rate of
    /// one whole unit or more precipitates on every draw; a rate of zero or
    /// less never does.
    pub fn calc_precipitation(&self) -> (r: Option<i64>)
        ensures
            exists|draw: u64| r == #[trigger] self.precip_spec(draw),
            self.precipitation_rate >= SCALE ==> r == Some(self.precipitation_amount),
            self.precipitation_rate <= 0 ==> r is None,
    {
        let d: u64 = random_u64();
        let r = self.precipitation_for_draw(d);
        proof {
            assert(r == self.precip_spec(d));
            if self.precipitation_rate >= SCALE {
                vstd::arithmetic::div_mod::lemma_mod_bound(d as int, SCALE as int);
            }
        }
        r
    }

    /// The flow, erosion and precipitation deltas of one cell, with the
    /// precipitation outcome supplied by the caller.
    pub fn calc_flow_deltas_with(
        &self,
        cell_index: usize,
        cell: &Cell,
        terrain: &Terrain,
        precip: bool,
    ) -> (r: Vec<TerrainDelta>)
        requires
            cell_index < terrain@.len(),
            *cell == terrain@[cell_index as int],
            forall|k: int|
                0 <= k < cell.neighbor_data@.len() ==> (#[trigger] cell.neighbor_data@[k].index)
                    < terrain@.len(),
        ensures
            r@ == self.flow_deltas_spec(terrain@, cell_index as int, precip),
            forall|m: int| 0 <= m < r@.len() ==> (#[trigger] r@[m].cell_index) < terrain@.len(),
    {
        let ghost t = terrain@;
        let fws = self.calc_flow_weights(terrain, cell);
        let fagg = aggregate_transfer_weights(&fws);
        let ews = self.calc_erosion_weights(terrain, cell);
        let eagg = aggregate_transfer_weights(&ews);
        let n: usize = cell.neighbor_len();
        let mut deltas: Vec<TerrainDelta> = Vec::new();
        let mut self_h: i64 = 0;
        let mut self_d: i64 = 0;
        let mut has_self: bool = false;
        let mut k: usize = 0;
        while k < n
            invariant
                n == cell.neighbor_data@.len(),
                k <= n,
                t == terrain@,
                forall|m: int|
                    0 <= m < cell.neighbor_data@.len() ==> (
                    #[trigger] cell.neighbor_data@[m].index) < t.len(),
                fws@ == flow_tws(t, *cell),
                ews@ == self.erosion_tws(t, *cell),
                fagg.weight as int == agg_weight(fws@, fws@.len() as int),
                fagg.available as int == agg_available(fws@, fws@.len() as int),
                eagg.weight as int == agg_weight(ews@, ews@.len() as int),
                eagg.available as int == agg_available(ews@, ews@.len() as int),
                deltas@ == self.nb_deltas_upto(t, *cell, k as int),
                self_h as int == self.self_acc(t, *cell, k as int).0,
                self_d as int == self.self_acc(t, *cell, k as int).1,
                has_self == self.self_acc(t, *cell, k as int).2,
                forall|m: int| 0 <= m < deltas@.len() ==> (#[trigger] deltas@[m].cell_index) < t.len(),
            decreases n - k,
        {
            let dd: i64 = if fagg.weight > 0 {
                if let Some(w) = fws[k] {
                    fp_mul(fp_mul(fp_div(w.weight, fagg.weight), fagg.available), self.flow_rate)
                } else {
                    0
                }
            } else {
                0
            };
            assert(dd as int == self.nb_depth_delta(t, *cell, k as int));
            let hd: i64 = if eagg.weight > 0 {
                if let Some(w) = ews[k] {
                    fp_mul(fp_mul(fp_div(w.weight, eagg.weight), eagg.available), self.erosion_rate)
                } else {
                    0
                }
            } else {
                0
            };
            assert(hd as int == self.nb_height_delta(t, *cell, k as int));
            if dd > 0 || hd > 0 {
                let nd = *cell.get_neighbor(k);
                deltas.push(
                    TerrainDelta {
                        cell_index: nd.index,
                        height_delta: if hd > 0 {
                            hd
                        } else {
                            0
                        },
                        depth_delta: if dd > 0 {
                            dd
                        } else {
                            0
                        },
                    },
                );
                assert(deltas@ == self.nb_deltas_upto(t, *cell, k as int + 1));
            }
            if dd > 0 {
                self_d = sat_sub(self_d, dd);
                self_h = sat_sub(self_h, fp_mul(dd, self.flow_erosion_rate));
                has_self = true;
            }
            if hd > 0 {
                self_h = sat_sub(self_h, hd);
                has_self = true;
            }
            k += 1;
        }
        if precip {
            self_d = sat_add(self_d, self.precipitation_amount);
            has_self = true;
        }
        if has_self {
            deltas.push(
                TerrainDelta { cell_index, height_delta: self_h, depth_delta: self_d },
            );
        }
        proof {
            assert(deltas@ =~= self.flow_deltas_spec(t, cell_index as int, precip));
        }
        deltas
    }

    /// The flow, erosion and precipitation deltas of one cell, with the
    /// precipitation outcome drawn at random: whatever the draw, the result
    /// is the exact delta list for one of the two outcomes.
    pub fn calc_flow_deltas(&self, cell_index: usize, cell: &Cell, terrain: &Terrain) -> (r: Vec<
        TerrainDelta,
    >)
        requires
            cell_index < terrain@.len(),
            *cell == terrain@[cell_index as int],
            forall|k: int|
                0 <= k < cell.neighbor_data@.len() ==> (#[trigger] cell.neighbor_data@[k].index)
                    < terrain@.len(),
        ensures
            exists|p: bool|
                #![auto]
                r@ == self.flow_deltas_spec(terrain@, cell_index as int, p) && (
                self.precipitation_rate >= SCALE ==> p) && (self.precipitation_rate <= 0 ==> !p),
            forall|m: int| 0 <= m < r@.len() ==> (#[trigger] r@[m].cell_index) < terrain@.len(),
    {
        let p = self.calc_precipitation();
        let drew: bool = p.is_some();
        let r = self.calc_flow_deltas_with(cell_index, cell, terrain, drew);
        proof {
            assert(r@ == self.flow_deltas_spec(terrain@, cell_index as int, drew));
        }
        r
    }

    /// The complete delta list of one unscaled step: for every cell in
    /// order, its flow deltas under that cell's draw, then its sink record.
    pub open spec fn do_flow_spec(&self, t: Seq<Cell>, draws: Seq<bool>, k: int) -> Seq<
        TerrainDelta,
    >
        decreases k,
    {
        if k <= 0 {
            Seq::empty()
        } else {
            self.do_flow_spec(t, draws, k - 1) + self.flow_deltas_spec(t, k - 1, draws[k - 1])
                + seq![sink_delta_spec(t[k - 1], k - 1)]
        }
    }

    /// One unscaled simulation step over the whole terrain: every delta
    /// targets an existing cell, and the list is exactly the per-cell delta
    /// lists under some sequence of per-cell precipitation draws.
    pub fn do_flow(&self, terrain: &Terrain) -> (r: Vec<TerrainDelta>)
        requires
            terrain.wf(),
        ensures
            forall|m: int| 0 <= m < r@.len() ==> (#[trigger] r@[m].cell_index) < terrain@.len(),
            exists|draws: Seq<bool>|
                #![auto]
                draws.len() == terrain@.len() && r@ == self.do_flow_spec(
                    terrain@,
                    draws,
                    terrain@.len() as int,
                ) && (self.precipitation_rate >= SCALE ==> forall|k: int|
                    0 <= k < draws.len() ==> draws[k]) && (self.precipitation_rate <= 0
                    ==> forall|k: int| 0 <= k < draws.len() ==> !draws[k]),
    {
        let n: usize = terrain.cells_len();
        let mut r: Vec<TerrainDelta> = Vec::new();
        let ghost mut draws: Seq<bool> = Seq::empty();
        let mut i: usize = 0;
        while i < n
            invariant
                n == terrain@.len(),
                terrain.wf(),
                i <= n,
                draws.len() == i,
                r@ == self.do_flow_spec(terrain@, draws, i as int),
                self.precipitation_rate >= SCALE ==> forall|k: int|
                    0 <= k < draws.len() ==> draws[k],
                self.precipitation_rate <= 0 ==> forall|k: int|
                    0 <= k < draws.len() ==> !draws[k],
                forall|m: int| 0 <= m < r@.len() ==> (#[trigger] r@[m].cell_index) < terrain@.len(),
            decreases n - i,
        {
            let cell = terrain.get_cell(i);
            proof {
                assert forall|k: int|
                    0 <= k < cell.neighbor_data@.len() implies (
                #[trigger] cell.neighbor_data@[k].index) < terrain@.len() by {
                    assert(crate::terrain::nb(terrain@, i as int, k) == cell.neighbor_data@[k]);
                }
            }
            let mut cd = self.calc_flow_deltas(i, cell, terrain);
            let ghost p = choose|p: bool|
                #![auto]
                cd@ == self.flow_deltas_spec(terrain@, i as int, p) && (self.precipitation_rate
                    >= SCALE ==> p) && (self.precipitation_rate <= 0 ==> !p);
            r.append(&mut cd);
            let mut sd = self.calc_sink_deltas(i, cell);
            r.append(&mut sd);
            proof {
                let old_draws = draws;
                draws = draws.push(p);
                lemma_do_flow_prefix(*self, terrain@, old_draws, draws, i as int);
                assert(draws[i as int] == p);
                assert(r@ =~= self.do_flow_spec(terrain@, draws, i as int + 1));
            }
            i += 1;
        }
        r
    }
}

/// The step's delta list depends only on the first `k` draws.
pub proof fn lemma_do_flow_prefix(
    f: DefaultFlow,
    t: Seq<Cell>,
    d1: Seq<bool>,
    d2: Seq<bool>,
    k: int,
)
    requires
        forall|m: int| 0 <= m < k ==> d1[m] == d2[m],
    ensures
        f.do_flow_spec(t, d1, k) == f.do_flow_spec(t, d2, k),
    decreases k,
{
    if k > 0 {
        lemma_do_flow_prefix(f, t, d1, d2, k - 1);
    }
}

impl Flow for DefaultFlow {
    fn flow(&self, terrain: &Terrain) -> (r: Vec<TerrainDelta>)
        ensures
            exists|draws: Seq<bool>|
                #![auto]
                draws.len() == terrain@.len() && r@ == self.do_flow_spec(
                    terrain@,
                    draws,
                    terrain@.len() as int,
                ) && (self.precipitation_rate >= SCALE ==> forall|k: int|
                    0 <= k < draws.len() ==> draws[k]) && (self.precipitation_rate <= 0
                    ==> forall|k: int| 0 <= k < draws.len() ==> !draws[k]),
    {
        self.do_flow(terrain)
    }
}

} // verus!
