//! The simulation engine: owns a terrain and a pluggable flow strategy,
//! and advances the simulation one step at a time by scaling the strategy's
//! deltas by the elapsed time and applying them additively.

use vstd::prelude::*;

use crate::fixed::fp_mul;
use crate::fixed::fp_mul_spec;
use crate::terrain::apply_deltas_spec;
use crate::terrain::lemma_apply_preserves_structure;
use crate::terrain::lemma_wf_same_structure;
use crate::terrain::Cell;
use crate::terrain::Terrain;
use crate::terrain::TerrainDelta;

verus! {

/// A flow strategy: computes the complete delta list for one unscaled
/// simulation step over an immutable terrain snapshot.  Every delta must
/// target an existing cell.
pub trait Flow {
    fn flow(&self, terrain: &Terrain) -> (r: Vec<TerrainDelta>)
        requires
            terrain.wf(),
        ensures
            forall|k: int| 0 <= k < r@.len() ==> (#[trigger] r@[k].cell_index) < terrain@.len(),
    ;
}

/// One delta with both components scaled by the elapsed time.
pub open spec fn scale_delta_spec(d: TerrainDelta, t: int) -> TerrainDelta {
    TerrainDelta {
        cell_index: d.cell_index,
        height_delta: fp_mul_spec(d.height_delta as int, t) as i64,
        depth_delta: fp_mul_spec(d.depth_delta as int, t) as i64,
    }
}

/// Every delta in the list scaled by the elapsed time.
pub open spec fn scale_deltas_spec(ds: Seq<TerrainDelta>, t: int) -> Seq<TerrainDelta> {
    Seq::new(ds.len(), |k: int| scale_delta_spec(ds[k], t))
}

/// Scale a delta list by a fixed-point time factor.
fn scale_deltas(ds: &Vec<TerrainDelta>, time_delta: i64) -> (r: Vec<TerrainDelta>)
    ensures
        r@ =~= scale_deltas_spec(ds@, time_delta as int),
{
    let n: usize = ds.len();
    let mut r: Vec<TerrainDelta> = Vec::new();
    let mut k: usize = 0;
    while k < n
        invariant
            n == ds@.len(),
            k <= n,
            r@.len() == k,
            forall|m: int| 0 <= m < k ==> r@[m] == scale_delta_spec(ds@[m], time_delta as int),
        decreases n - k,
    {
        let d = ds[k];
        r.push(
            TerrainDelta {
                cell_index: d.cell_index,
                height_delta: fp_mul(d.height_delta, time_delta),
                depth_delta: fp_mul(d.depth_delta, time_delta),
            },
        );
        k += 1;
    }
    r
}

/// The engine: one terrain, one strategy, no other mutation path.
pub struct FlowEngine<S: Flow> {
    terrain: Terrain,
    strategy: S,
}

impl<S: Flow> View for FlowEngine<S> {
    type V = Seq<Cell>;

    closed spec fn view(&self) -> Seq<Cell> {
        self.terrain@
    }
}

impl<S: Flow> FlowEngine<S> {
    /// The owned terrain keeps its construction invariant.
    pub closed spec fn wf(&self) -> bool {
        self.terrain.wf()
    }

    /// The owned strategy, for contracts that speak about its calls.
    pub closed spec fn spec_strategy(&self) -> S {
        self.strategy
    }

    /// The owned terrain value, for contracts that speak about calls on it.
    pub closed spec fn spec_terrain(&self) -> Terrain {
        self.terrain
    }

    pub fn new(terrain: Terrain, strategy: S) -> (e: FlowEngine<S>)
        requires
            terrain.wf(),
        ensures
            e.wf(),
            e@ == terrain@,
    {
        FlowEngine { terrain, strategy }
    }

    /// One simulation step: ask the strategy once for the step's delta
    /// list, scale every delta by `time_delta`, and apply them all.  The
    /// applied list is a possible result of calling the strategy on the
    /// pre-step terrain; locations and the neighbor graph never change,
    /// only heights and depths move.
    pub fn step(&mut self, time_delta: i64)
        requires
            old(self).wf(),
        ensures
            final(self).wf(),
            final(self)@.len() == old(self)@.len(),
            forall|i: int|
                0 <= i < old(self)@.len() ==> (#[trigger] final(self)@[i]).location == old(
                    self,
                )@[i].location && final(self)@[i].neighbor_data == old(self)@[i].neighbor_data,
            exists|ds: Vec<TerrainDelta>|
                #![auto]
                call_ensures(
                    S::flow,
                    (&old(self).spec_strategy(), &old(self).spec_terrain()),
                    ds,
                ) && final(self)@ == apply_deltas_spec(
                    old(self)@,
                    scale_deltas_spec(ds@, time_delta as int),
                ),
    {
        let flow_fn = S::flow;
        let deltas = flow_fn(&self.strategy, &self.terrain);
        let scaled = scale_deltas(&deltas, time_delta);
        self.terrain.apply_deltas(&scaled);
        proof {
            lemma_apply_preserves_structure(old(self)@, scaled@);
            lemma_wf_same_structure(old(self)@, self@);
            assert(self@ == apply_deltas_spec(
                old(self)@,
                scale_deltas_spec(deltas@, time_delta as int),
            ));
        }
    }

    /// Read-only access to the current terrain.
    pub fn terrain(&self) -> (r: &Terrain)
        ensures
            r@ == self@,
            r.wf() <==> self.wf(),
    {
        &self.terrain
    }
}

} // verus!
