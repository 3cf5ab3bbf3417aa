//! The terrain mesh: cells with fixed locations, mutable height and water
//! depth, and a symmetric, deduplicated neighbor graph derived from a
//! triangulation.
//!
//! Triangulating the point cloud itself is floating-point work done by an
//! outside triangulator; the mesh builder here consumes its triangle list
//! (three vertex indices per triangle) and is verified to link the cells
//! symmetrically, without duplicate edges, and with exact fixed-point
//! Euclidean distances.

use vstd::prelude::*;

use crate::fixed::clamp;
use crate::fixed::isqrt;
use crate::point::dist_spec;
use crate::point::in_coord_range;
use crate::point::sq_dist;
use crate::point::Point;

verus! {

/// A directed edge record cached on the owning cell.
#[derive(Clone, Copy, Debug)]
pub struct NeighborData {
    pub index: usize,
    pub distance: i64,
}

/// One mesh vertex: immutable location, mutable height and water depth, and
/// the cached neighbor edges.
pub struct Cell {
    pub location: Point,
    pub height: i64,
    pub depth: i64,
    pub neighbor_data: Vec<NeighborData>,
}

/// An additive update targeting exactly one cell.
#[derive(Clone, Copy, Debug)]
pub struct TerrainDelta {
    pub cell_index: usize,
    pub height_delta: i64,
    pub depth_delta: i64,
}

/// The terrain: an ordered collection of cells whose position is their
/// identity.  No cell is added or removed after construction.
pub struct Terrain {
    cells: Vec<Cell>,
}

impl TerrainDelta {
    /// A zero update targeting one cell.
    pub fn new(cell_index: usize) -> (d: TerrainDelta)
        ensures
            d == (TerrainDelta { cell_index, height_delta: 0i64, depth_delta: 0i64 }),
    {
        TerrainDelta { cell_index, height_delta: 0, depth_delta: 0 }
    }
}

impl NeighborData {
    pub fn index(&self) -> (r: usize)
        ensures
            r == self.index,
    {
        self.index
    }

    pub fn distance(&self) -> (r: i64)
        ensures
            r == self.distance,
    {
        self.distance
    }
}

impl Cell {
    /// Whether this cell already lists `j` as a neighbor.
    pub open spec fn links_to(&self, j: int) -> bool {
        exists|k: int|
            0 <= k < self.neighbor_data@.len() && (#[trigger] self.neighbor_data@[k].index) as int
                == j
    }

    pub fn new(location: Point, height: i64, depth: i64) -> (c: Cell)
        ensures
            c.location == location,
            c.height == height,
            c.depth == depth,
            c.neighbor_data@ =~= Seq::<NeighborData>::empty(),
    {
        Cell { location, height, depth, neighbor_data: Vec::new() }
    }

    pub fn x(&self) -> (r: i64)
        ensures
            r == self.location.x,
    {
        self.location.x
    }

    pub fn y(&self) -> (r: i64)
        ensures
            r == self.location.y,
    {
        self.location.y
    }

    pub fn height(&self) -> (r: i64)
        ensures
            r == self.height,
    {
        self.height
    }

    pub fn depth(&self) -> (r: i64)
        ensures
            r == self.depth,
    {
        self.depth
    }

    pub fn neighbor_len(&self) -> (r: usize)
        ensures
            r == self.neighbor_data@.len(),
    {
        self.neighbor_data.len()
    }

    pub fn get_neighbor(&self, k: usize) -> (r: &NeighborData)
        requires
            k < self.neighbor_data@.len(),
        ensures
            *r == self.neighbor_data@[k as int],
    {
        &self.neighbor_data[k]
    }

    /// Append an edge toward `index` unless one is already recorded.
    fn add_neighbor(&mut self, index: usize, neighbor_location: &Point)
        requires
            in_coord_range(old(self).location),
            in_coord_range(*neighbor_location),
        ensures
            final(self).location == old(self).location,
            final(self).height == old(self).height,
            final(self).depth == old(self).depth,
            old(self).links_to(index as int) ==> final(self).neighbor_data@ == old(
                self,
            ).neighbor_data@,
            !old(self).links_to(index as int) ==> final(self).neighbor_data@ == old(
                self,
            ).neighbor_data@.push(
                (NeighborData {
                    index,
                    distance: dist_spec(old(self).location, *neighbor_location) as i64,
                }),
            ),
            !old(self).links_to(index as int) ==> 0 <= dist_spec(
                old(self).location,
                *neighbor_location,
            ) <= i64::MAX,
    {
        let mut k: usize = 0;
        let n: usize = self.neighbor_data.len();
        while k < n
            invariant
                n == self.neighbor_data@.len(),
                k <= n,
                forall|m: int| 0 <= m < k ==> (#[trigger] self.neighbor_data@[m].index) != index,
            decreases n - k,
        {
            if self.neighbor_data[k].index == index {
                return ;
            }
            k += 1;
        }
        assert(!self.links_to(index as int));
        let d: i64 = distance(&self.location, neighbor_location);
        self.neighbor_data.push(NeighborData { index, distance: d });
    }
}

/// Euclidean distance between two in-range points, as the integer square
/// root (rounded down) of the exact squared distance.
pub fn distance(a: &Point, b: &Point) -> (d: i64)
    requires
        in_coord_range(*a),
        in_coord_range(*b),
    ensures
        d == dist_spec(*a, *b),
        0 <= d,
{
    let dx: i128 = a.x as i128 - b.x as i128;
    let dy: i128 = a.y as i128 - b.y as i128;
    assert(dx * dx + dy * dy <= 8_000_000_000_000_000_000_000_000_000_000i128 && 0 <= dx * dx
        && 0 <= dy * dy) by (nonlinear_arith)
        requires
            -2_000_000_000_000_000 <= dx <= 2_000_000_000_000_000,
            -2_000_000_000_000_000 <= dy <= 2_000_000_000_000_000,
    ;
    let m: u128 = (dx * dx + dy * dy) as u128;
    let r: u64 = isqrt(m);
    assert(r <= 3_000_000_000_000_000u64) by (nonlinear_arith)
        requires
            (r as int) * (r as int) <= 8_000_000_000_000_000_000_000_000_000_000int,
    ;
    proof {
        assert(m as int == sq_dist(*a, *b));
    }
    r as i64
}

/// `dist_spec` does not depend on the order of its arguments.
pub proof fn lemma_dist_symmetric(a: Point, b: Point)
    ensures
        sq_dist(a, b) == sq_dist(b, a),
        dist_spec(a, b) == dist_spec(b, a),
{
    assert(sq_dist(a, b) == sq_dist(b, a)) by (nonlinear_arith);
}

/// The state of one cell after one delta: both fields move by the delta,
/// saturating at the i64 range; nothing else changes.  A delta whose target
/// is out of range leaves the terrain unchanged (the executable functions
/// never accept one).
pub open spec fn apply_delta_spec(cells: Seq<Cell>, d: TerrainDelta) -> Seq<Cell> {
    if d.cell_index < cells.len() {
        let c = cells[d.cell_index as int];
        cells.update(
            d.cell_index as int,
            Cell {
                location: c.location,
                height: clamp(c.height + d.height_delta) as i64,
                depth: clamp(c.depth + d.depth_delta) as i64,
                neighbor_data: c.neighbor_data,
            },
        )
    } else {
        cells
    }
}

/// Left fold of `apply_delta_spec` over a delta list.
pub open spec fn apply_deltas_spec(cells: Seq<Cell>, ds: Seq<TerrainDelta>) -> Seq<Cell>
    decreases ds.len(),
{
    if ds.len() == 0 {
        cells
    } else {
        apply_deltas_spec(apply_delta_spec(cells, ds[0]), ds.skip(1))
    }
}

/// Peeling a delta off the back of the list instead of the front.
pub proof fn lemma_apply_deltas_push(cells: Seq<Cell>, ds: Seq<TerrainDelta>, d: TerrainDelta)
    ensures
        apply_deltas_spec(cells, ds.push(d)) == apply_delta_spec(apply_deltas_spec(cells, ds), d),
    decreases ds.len(),
{
    reveal_with_fuel(apply_deltas_spec, 3);
    if ds.len() == 0 {
        assert(ds.push(d)[0] == d);
        assert(ds.push(d).skip(1) =~= Seq::<TerrainDelta>::empty());
        assert(apply_deltas_spec(cells, ds.push(d)) == apply_delta_spec(cells, d));
    } else {
        assert(ds.push(d)[0] == ds[0]);
        assert(ds.push(d).skip(1) =~= ds.skip(1).push(d));
        lemma_apply_deltas_push(apply_delta_spec(cells, ds[0]), ds.skip(1), d);
    }
}

impl View for Terrain {
    type V = Seq<Cell>;

    closed spec fn view(&self) -> Seq<Cell> {
        self.cells@
    }
}

impl Terrain {
    pub fn cells_len(&self) -> (r: usize)
        ensures
            r == self@.len(),
    {
        self.cells.len()
    }

    pub fn get_cell(&self, index: usize) -> (r: &Cell)
        requires
            index < self@.len(),
        ensures
            *r == self@[index as int],
    {
        &self.cells[index]
    }

    /// Add one delta to its target cell, saturating at the i64 range.
    pub fn apply_delta(&mut self, delta: &TerrainDelta)
        requires
            delta.cell_index < old(self)@.len(),
        ensures
            final(self)@ == apply_delta_spec(old(self)@, *delta),
            old(self).wf() ==> final(self).wf(),
    {
        let c = &mut self.cells[delta.cell_index];
        c.height = crate::fixed::sat_add(c.height, delta.height_delta);
        c.depth = crate::fixed::sat_add(c.depth, delta.depth_delta);
        assert(self.cells@ =~= apply_delta_spec(old(self)@, *delta));
        proof {
            if old(self).wf() {
                lemma_apply_preserves_structure(old(self)@, seq![*delta]);
                reveal_with_fuel(apply_deltas_spec, 2);
                assert(seq![*delta].skip(1) =~= Seq::<TerrainDelta>::empty());
                assert(apply_deltas_spec(old(self)@, seq![*delta]) == self@);
                lemma_wf_same_structure(old(self)@, self@);
            }
        }
    }

    /// Add every delta in the list to its target cell, in list order.
    pub fn apply_deltas(&mut self, deltas: &Vec<TerrainDelta>)
        requires
            forall|k: int|
                0 <= k < deltas@.len() ==> (#[trigger] deltas@[k].cell_index) < old(self)@.len(),
        ensures
            final(self)@ == apply_deltas_spec(old(self)@, deltas@),
            old(self).wf() ==> final(self).wf(),
    {
        let n: usize = deltas.len();
        let mut k: usize = 0;
        proof {
            lemma_apply_preserves_len(old(self)@, deltas@.take(0));
        }
        while k < n
            invariant
                n == deltas@.len(),
                k <= n,
                forall|m: int|
                    0 <= m < deltas@.len() ==> (#[trigger] deltas@[m].cell_index) < old(
                        self,
                    )@.len(),
                self@ == apply_deltas_spec(old(self)@, deltas@.take(k as int)),
                self@.len() == old(self)@.len(),
            decreases n - k,
        {
            let ghost pre = self@;
            let d = deltas[k];
            self.apply_delta(&d);
            proof {
                assert(deltas@.take(k as int).push(deltas@[k as int]) =~= deltas@.take(
                    k as int + 1,
                ));
                lemma_apply_deltas_push(old(self)@, deltas@.take(k as int), deltas@[k as int]);
                lemma_apply_preserves_len(old(self)@, deltas@.take(k as int + 1));
            }
            k += 1;
        }
        proof {
            assert(deltas@.take(n as int) =~= deltas@);
            if old(self).wf() {
                lemma_apply_preserves_structure(old(self)@, deltas@);
                lemma_wf_same_structure(old(self)@, self@);
            }
        }
    }
}

/// Applying deltas never changes the number of cells.
pub proof fn lemma_apply_preserves_len(cells: Seq<Cell>, ds: Seq<TerrainDelta>)
    ensures
        apply_deltas_spec(cells, ds).len() == cells.len(),
    decreases ds.len(),
{
    reveal_with_fuel(apply_deltas_spec, 2);
    if ds.len() > 0 {
        lemma_apply_preserves_len(apply_delta_spec(cells, ds[0]), ds.skip(1));
    }
}


/// The `k`-th neighbor record of cell `i`.
pub open spec fn nb(cells: Seq<Cell>, i: int, k: int) -> NeighborData {
    cells[i].neighbor_data@[k]
}

/// How many neighbor records cell `i` holds.
pub open spec fn nb_count(cells: Seq<Cell>, i: int) -> int {
    cells[i].neighbor_data@.len() as int
}

/// Cell `i` lists `j` among its neighbors.
pub open spec fn has_edge(cells: Seq<Cell>, i: int, j: int) -> bool {
    exists|k: int| 0 <= k < nb_count(cells, i) && (#[trigger] nb(cells, i, k)).index as int == j
}

/// `Cell::links_to` agrees with `has_edge` at that cell's index.
pub proof fn lemma_links_to_edge(cells: Seq<Cell>, i: int, j: int)
    requires
        0 <= i < cells.len(),
    ensures
        cells[i].links_to(j) <==> has_edge(cells, i, j),
{
    if cells[i].links_to(j) {
        let k = choose|k: int|
            0 <= k < cells[i].neighbor_data@.len() && (#[trigger] cells[i].neighbor_data@[k].index)
                as int == j;
        assert(nb(cells, i, k).index as int == j);
        assert(has_edge(cells, i, j));
    }
    if has_edge(cells, i, j) {
        let k = choose|k: int|
            0 <= k < nb_count(cells, i) && (#[trigger] nb(cells, i, k)).index as int == j;
        assert(cells[i].neighbor_data@[k].index as int == j);
        assert(cells[i].links_to(j));
    }
}

/// Every recorded edge points at a distinct, existing cell and carries the
/// exact fixed-point Euclidean distance between the two locations.
pub open spec fn edges_valid(cells: Seq<Cell>) -> bool {
    forall|i: int, k: int|
        0 <= i < cells.len() && 0 <= k < nb_count(cells, i) ==> {
            &&& (#[trigger] nb(cells, i, k)).index < cells.len()
            &&& nb(cells, i, k).index as int != i
            &&& nb(cells, i, k).distance == dist_spec(
                cells[i].location,
                cells[nb(cells, i, k).index as int].location,
            )
        }
}

/// No cell lists the same neighbor twice.
pub open spec fn edges_dedup(cells: Seq<Cell>) -> bool {
    forall|i: int, k1: int, k2: int|
        0 <= i < cells.len() && 0 <= k1 < nb_count(cells, i) && 0 <= k2 < nb_count(cells, i) && k1
            != k2 ==> (#[trigger] nb(cells, i, k1)).index != (#[trigger] nb(cells, i, k2)).index
}

/// The neighbor relation is symmetric.
pub open spec fn edges_symmetric(cells: Seq<Cell>) -> bool {
    forall|i: int, j: int|
        0 <= i < cells.len() && 0 <= j < cells.len() && #[trigger] has_edge(cells, i, j)
            ==> has_edge(cells, j, i)
}

/// The neighbor graph invariant of a built terrain.
pub open spec fn graph_wf(cells: Seq<Cell>) -> bool {
    &&& edges_valid(cells)
    &&& edges_dedup(cells)
    &&& edges_symmetric(cells)
}

/// Every cell location is within the representable coordinate range.
pub open spec fn locations_in_range(cells: Seq<Cell>) -> bool {
    forall|i: int| 0 <= i < cells.len() ==> in_coord_range((#[trigger] cells[i]).location)
}

/// Graph symmetry over single edge records: if cell `i` lists `j` at
/// distance `d`, then cell `j` lists `i` at the same distance.
pub proof fn lemma_graph_symmetry(cells: Seq<Cell>, i: int, j: int, k: int)
    requires
        graph_wf(cells),
        0 <= i < cells.len(),
        0 <= k < nb_count(cells, i),
        nb(cells, i, k).index as int == j,
    ensures
        exists|k2: int|
            0 <= k2 < nb_count(cells, j) && (#[trigger] nb(cells, j, k2)).index as int == i && nb(
                cells,
                j,
                k2,
            ).distance == nb(cells, i, k).distance,
{
    assert(has_edge(cells, i, j));
    assert(0 <= j < cells.len());
    assert(has_edge(cells, j, i));
    let k2 = choose|k2: int|
        0 <= k2 < nb_count(cells, j) && (#[trigger] nb(cells, j, k2)).index as int == i;
    lemma_dist_symmetric(cells[i].location, cells[j].location);
    assert(nb(cells, j, k2).distance == nb(cells, i, k).distance);
}

/// Vertex `v` (0, 1 or 2) of triangle `t`.
pub open spec fn tri_vert(tris: Seq<usize>, t: int, v: int) -> int {
    tris[3 * t + v] as int
}

/// Triangle `t` has `i` among its vertices.
pub open spec fn tri_mentions(tris: Seq<usize>, t: int, i: int) -> bool {
    tri_vert(tris, t, 0) == i || tri_vert(tris, t, 1) == i || tri_vert(tris, t, 2) == i
}

/// Triangle `t` is in range and has three pairwise distinct vertices.
pub open spec fn tri_ok(tris: Seq<usize>, t: int) -> bool {
    &&& 0 <= t
    &&& 3 * t + 2 < tris.len()
    &&& tri_vert(tris, t, 0) != tri_vert(tris, t, 1)
    &&& tri_vert(tris, t, 0) != tri_vert(tris, t, 2)
    &&& tri_vert(tris, t, 1) != tri_vert(tris, t, 2)
}

/// All triangles have pairwise distinct vertices.
pub open spec fn tris_distinct(tris: Seq<usize>) -> bool {
    forall|t: int| 0 <= t && 3 * t + 2 < tris.len() ==> #[trigger] tri_ok(tris, t)
}

/// Cells `i` and `j` are distinct vertices of one of the first `n` triangles.
pub open spec fn tri_linked_upto(tris: Seq<usize>, n: int, i: int, j: int) -> bool {
    exists|t: int|
        0 <= t < n && 3 * t + 2 < tris.len() && i != j && #[trigger] tri_mentions(tris, t, i)
            && #[trigger] tri_mentions(tris, t, j)
}

/// The edge relation of `cells` is exactly the pair relation of the first
/// `n_tris` triangles (over in-range cell indices).
pub open spec fn edges_match_tris(cells: Seq<Cell>, tris: Seq<usize>, n_tris: int) -> bool {
    forall|i: int, j: int|
        0 <= i < cells.len() && 0 <= j < cells.len() ==> ((#[trigger] has_edge(cells, i, j))
            <==> tri_linked_upto(tris, n_tris, i, j))
}

/// Adding the three edge pairs of triangle `t` extends the edge relation by
/// exactly that triangle's pairs.
proof fn lemma_tri_linked_extend(
    tris: Seq<usize>,
    t: int,
    before: Seq<Cell>,
    mid1: Seq<Cell>,
    mid2: Seq<Cell>,
    after: Seq<Cell>,
)
    requires
        tri_ok(tris, t),
        mid1.len() == before.len(),
        mid2.len() == before.len(),
        after.len() == before.len(),
        0 <= tri_vert(tris, t, 0) < before.len(),
        0 <= tri_vert(tris, t, 1) < before.len(),
        0 <= tri_vert(tris, t, 2) < before.len(),
        edges_match_tris(before, tris, t),
        forall|i: int, j: int|
            0 <= i < before.len() && 0 <= j < before.len() ==> ((#[trigger] has_edge(mid1, i, j))
                <==> has_edge(before, i, j) || (i == tri_vert(tris, t, 0) && j == tri_vert(
                tris,
                t,
                1,
            )) || (i == tri_vert(tris, t, 1) && j == tri_vert(tris, t, 0))),
        forall|i: int, j: int|
            0 <= i < before.len() && 0 <= j < before.len() ==> ((#[trigger] has_edge(mid2, i, j))
                <==> has_edge(mid1, i, j) || (i == tri_vert(tris, t, 0) && j == tri_vert(
                tris,
                t,
                2,
            )) || (i == tri_vert(tris, t, 2) && j == tri_vert(tris, t, 0))),
        forall|i: int, j: int|
            0 <= i < before.len() && 0 <= j < before.len() ==> ((#[trigger] has_edge(after, i, j))
                <==> has_edge(mid2, i, j) || (i == tri_vert(tris, t, 1) && j == tri_vert(
                tris,
                t,
                2,
            )) || (i == tri_vert(tris, t, 2) && j == tri_vert(tris, t, 1))),
    ensures
        edges_match_tris(after, tris, t + 1),
{
    assert forall|i: int, j: int| 0 <= i < after.len() && 0 <= j < after.len() implies ((
    #[trigger] has_edge(after, i, j)) <==> tri_linked_upto(tris, t + 1, i, j)) by {
        if has_edge(after, i, j) {
            if has_edge(before, i, j) {
                let u = choose|u: int|
                    0 <= u < t && 3 * u + 2 < tris.len() && i != j && #[trigger] tri_mentions(
                        tris,
                        u,
                        i,
                    ) && #[trigger] tri_mentions(tris, u, j);
                assert(tri_mentions(tris, u, i) && tri_mentions(tris, u, j));
                assert(tri_linked_upto(tris, t + 1, i, j));
            } else {
                assert(tri_mentions(tris, t, i) && tri_mentions(tris, t, j) && i != j);
                assert(tri_linked_upto(tris, t + 1, i, j));
            }
        }
        if tri_linked_upto(tris, t + 1, i, j) {
            let u = choose|u: int|
                0 <= u < t + 1 && 3 * u + 2 < tris.len() && i != j && #[trigger] tri_mentions(
                    tris,
                    u,
                    i,
                ) && #[trigger] tri_mentions(tris, u, j);
            if u < t {
                assert(tri_linked_upto(tris, t, i, j));
                assert(has_edge(before, i, j));
            } else {
                assert(tri_mentions(tris, t, i) && tri_mentions(tris, t, j));
                assert(has_edge(after, i, j));
            }
        }
    }
}

/// Pushing the two halves of one new edge preserves the graph invariant and
/// grows the edge relation by exactly that pair.
proof fn lemma_link_shape(pre: Seq<Cell>, post: Seq<Cell>, a: int, b: int, d: int)
    requires
        pre.len() <= usize::MAX,
        0 <= a < pre.len(),
        0 <= b < pre.len(),
        a != b,
        graph_wf(pre),
        !has_edge(pre, a, b),
        !has_edge(pre, b, a),
        post.len() == pre.len(),
        0 <= d <= i64::MAX,
        d == dist_spec(pre[a].location, pre[b].location),
        d == dist_spec(pre[b].location, pre[a].location),
        forall|i: int|
            0 <= i < pre.len() ==> (#[trigger] post[i]).location == pre[i].location
                && post[i].height == pre[i].height && post[i].depth == pre[i].depth,
        forall|i: int|
            0 <= i < pre.len() && i != a && i != b ==> (#[trigger] post[i]).neighbor_data
                == pre[i].neighbor_data,
        post[a].neighbor_data@ == pre[a].neighbor_data@.push(
            (NeighborData { index: b as usize, distance: d as i64 }),
        ),
        post[b].neighbor_data@ == pre[b].neighbor_data@.push(
            (NeighborData { index: a as usize, distance: d as i64 }),
        ),
    ensures
        graph_wf(post),
        forall|i: int, j: int|
            0 <= i < pre.len() && 0 <= j < pre.len() ==> ((#[trigger] has_edge(post, i, j))
                <==> has_edge(pre, i, j) || (i == a && j == b) || (i == b && j == a)),
{
    assert(nb_count(post, a) == nb_count(pre, a) + 1);
    assert(nb_count(post, b) == nb_count(pre, b) + 1);
    assert(nb(post, a, nb_count(pre, a)) == (NeighborData {
        index: b as usize,
        distance: d as i64,
    }));
    assert(nb(post, b, nb_count(pre, b)) == (NeighborData {
        index: a as usize,
        distance: d as i64,
    }));
    assert forall|i: int, j: int| 0 <= i < pre.len() && 0 <= j < pre.len() implies ((
    #[trigger] has_edge(post, i, j)) <==> has_edge(pre, i, j) || (i == a && j == b) || (i == b && j
        == a)) by {
        if has_edge(post, i, j) {
            let k = choose|k: int|
                0 <= k < nb_count(post, i) && (#[trigger] nb(post, i, k)).index as int == j;
            if i == a {
                if k < nb_count(pre, a) {
                    assert(nb(post, a, k) == nb(pre, a, k));
                    assert(has_edge(pre, i, j));
                } else {
                    assert(j == b);
                }
            } else if i == b {
                if k < nb_count(pre, b) {
                    assert(nb(post, b, k) == nb(pre, b, k));
                    assert(has_edge(pre, i, j));
                } else {
                    assert(j == a);
                }
            } else {
                assert(nb(post, i, k) == nb(pre, i, k));
                assert(has_edge(pre, i, j));
            }
        }
        if has_edge(pre, i, j) {
            let k = choose|k: int|
                0 <= k < nb_count(pre, i) && (#[trigger] nb(pre, i, k)).index as int == j;
            assert(nb(post, i, k) == nb(pre, i, k));
            assert(has_edge(post, i, j));
        }
        if i == a && j == b {
            assert(nb(post, a, nb_count(pre, a)).index as int == b);
            assert(has_edge(post, a, b));
        }
        if i == b && j == a {
            assert(nb(post, b, nb_count(pre, b)).index as int == a);
            assert(has_edge(post, b, a));
        }
    }
    assert forall|i: int, k: int| 0 <= i < post.len() && 0 <= k < nb_count(post, i) implies {
        &&& (#[trigger] nb(post, i, k)).index < post.len()
        &&& nb(post, i, k).index as int != i
        &&& nb(post, i, k).distance == dist_spec(
            post[i].location,
            post[nb(post, i, k).index as int].location,
        )
    } by {
        if i == a && k == nb_count(pre, a) {
            assert(nb(post, i, k).distance == dist_spec(
                post[i].location,
                post[nb(post, i, k).index as int].location,
            ));
        } else if i == b && k == nb_count(pre, b) {
            assert(nb(post, i, k).distance == dist_spec(
                post[i].location,
                post[nb(post, i, k).index as int].location,
            ));
        } else {
            assert(nb(post, i, k) == nb(pre, i, k));
            assert(0 <= k < nb_count(pre, i));
            assert(nb(pre, i, k).distance == dist_spec(
                pre[i].location,
                pre[nb(pre, i, k).index as int].location,
            ));
        }
    }
    assert(edges_valid(post));
    assert forall|i: int, k1: int, k2: int|
        0 <= i < post.len() && 0 <= k1 < nb_count(post, i) && 0 <= k2 < nb_count(post, i) && k1
            != k2 implies (#[trigger] nb(post, i, k1)).index != (#[trigger] nb(
        post,
        i,
        k2,
    )).index by {
        if i == a {
            if k1 == nb_count(pre, a) {
                if nb(post, a, k2).index as int == b {
                    assert(nb(post, a, k2) == nb(pre, a, k2));
                    assert(has_edge(pre, a, b));
                }
            } else if k2 == nb_count(pre, a) {
                if nb(post, a, k1).index as int == b {
                    assert(nb(post, a, k1) == nb(pre, a, k1));
                    assert(has_edge(pre, a, b));
                }
            } else {
                assert(nb(post, a, k1) == nb(pre, a, k1));
                assert(nb(post, a, k2) == nb(pre, a, k2));
            }
        } else if i == b {
            if k1 == nb_count(pre, b) {
                if nb(post, b, k2).index as int == a {
                    assert(nb(post, b, k2) == nb(pre, b, k2));
                    assert(has_edge(pre, b, a));
                }
            } else if k2 == nb_count(pre, b) {
                if nb(post, b, k1).index as int == a {
                    assert(nb(post, b, k1) == nb(pre, b, k1));
                    assert(has_edge(pre, b, a));
                }
            } else {
                assert(nb(post, b, k1) == nb(pre, b, k1));
                assert(nb(post, b, k2) == nb(pre, b, k2));
            }
        } else {
            assert(nb(post, i, k1) == nb(pre, i, k1));
            assert(nb(post, i, k2) == nb(pre, i, k2));
        }
    }
    assert(edges_dedup(post));
    assert forall|i: int, j: int|
        0 <= i < post.len() && 0 <= j < post.len() && #[trigger] has_edge(post, i, j) implies
    has_edge(post, j, i) by {
        if has_edge(pre, i, j) {
            assert(has_edge(pre, j, i));
        }
    }
    assert(edges_symmetric(post));
}

/// Whether `c` already lists `j` as a neighbor.
fn cell_links_to(c: &Cell, j: usize) -> (r: bool)
    ensures
        r == c.links_to(j as int),
{
    let n: usize = c.neighbor_data.len();
    let mut k: usize = 0;
    while k < n
        invariant
            n == c.neighbor_data@.len(),
            k <= n,
            forall|m: int| 0 <= m < k ==> (#[trigger] c.neighbor_data@[m].index) != j,
        decreases n - k,
    {
        if c.neighbor_data[k].index == j {
            return true;
        }
        k += 1;
    }
    false
}

/// Record the symmetric edge pair between distinct cells `a` and `b`,
/// unless it is already present.
fn link_cells(cells: &mut Vec<Cell>, a: usize, b: usize)
    requires
        a < old(cells)@.len(),
        b < old(cells)@.len(),
        a != b,
        locations_in_range(old(cells)@),
        graph_wf(old(cells)@),
    ensures
        final(cells)@.len() == old(cells)@.len(),
        forall|i: int|
            0 <= i < old(cells)@.len() ==> {
                let oc = #[trigger] old(cells)@[i];
                let fc = final(cells)@[i];
                fc.location == oc.location && fc.height == oc.height && fc.depth == oc.depth
            },
        locations_in_range(final(cells)@),
        graph_wf(final(cells)@),
        forall|i: int, j: int|
            0 <= i < old(cells)@.len() && 0 <= j < old(cells)@.len() ==> ((#[trigger] has_edge(
                final(cells)@,
                i,
                j,
            )) <==> has_edge(old(cells)@, i, j) || (i == a as int && j == b as int) || (i
                == b as int && j == a as int)),
{
    let ghost pre = cells@;
    let nlen: usize = cells.len();
    let pa: Point = cells[a].location;
    let pb: Point = cells[b].location;
    let linked: bool = cell_links_to(&cells[a], b);
    proof {
        lemma_links_to_edge(pre, a as int, b as int);
    }
    if linked {
        proof {
            assert(has_edge(pre, a as int, b as int));
            assert(has_edge(pre, b as int, a as int));
        }
        return ;
    }
    proof {
        lemma_dist_symmetric(pa, pb);
        assert(!has_edge(pre, b as int, a as int)) by {
            if has_edge(pre, b as int, a as int) {
                assert(has_edge(pre, a as int, b as int));
            }
        }
    }
    let ca: &mut Cell = &mut cells[a];
    proof {
        lemma_links_to_edge(pre, a as int, b as int);
    }
    ca.add_neighbor(b, &pb);
    let ghost mid = cells@;
    proof {
        assert(!mid[b as int].links_to(a as int)) by {
            assert(mid[b as int] == pre[b as int]);
            lemma_links_to_edge(pre, b as int, a as int);
        }
    }
    let cb: &mut Cell = &mut cells[b];
    cb.add_neighbor(a, &pa);
    proof {
        let post = cells@;
        let d = dist_spec(pa, pb);
        assert(post[a as int].neighbor_data@ == pre[a as int].neighbor_data@.push(
            (NeighborData { index: b, distance: d as i64 }),
        ));
        assert(post[b as int].neighbor_data@ == pre[b as int].neighbor_data@.push(
            (NeighborData { index: a, distance: d as i64 }),
        ));
        lemma_link_shape(pre, post, a as int, b as int, d);
    }
}

impl Terrain {
    /// Build a terrain from one point per cell, that point's initial height
    /// and water depth, and the triangle list of a planar triangulation of
    /// the points (three vertex indices per triangle).
    ///
    /// Every ordered pair of distinct vertices within a triangle becomes a
    /// neighbor edge unless the cell already lists that neighbor, so the
    /// graph is symmetric and deduplicated by construction.
    pub fn generate(
        points: Vec<Point>,
        heights: Vec<i64>,
        depths: Vec<i64>,
        triangles: &Vec<usize>,
    ) -> (t: Terrain)
        requires
            heights@.len() == points@.len(),
            depths@.len() == points@.len(),
            triangles@.len() % 3 == 0,
            forall|k: int| 0 <= k < triangles@.len() ==> (#[trigger] triangles@[k]) < points@.len(),
            tris_distinct(triangles@),
            forall|k: int| 0 <= k < points@.len() ==> in_coord_range(#[trigger] points@[k]),
        ensures
            t@.len() == points@.len(),
            forall|i: int|
                0 <= i < points@.len() ==> (#[trigger] t@[i]).location == points@[i] && t@[i].height
                    == heights@[i] && t@[i].depth == depths@[i],
            graph_wf(t@),
            locations_in_range(t@),
            edges_match_tris(t@, triangles@, triangles@.len() as int / 3),
    {
        let n: usize = points.len();
        let mut cells: Vec<Cell> = Vec::new();
        let mut k: usize = 0;
        while k < n
            invariant
                n == points@.len(),
                heights@.len() == n,
                depths@.len() == n,
                k <= n,
                cells@.len() == k,
                forall|i: int|
                    0 <= i < k ==> (#[trigger] cells@[i]).location == points@[i]
                        && cells@[i].height == heights@[i] && cells@[i].depth == depths@[i]
                        && cells@[i].neighbor_data@.len() == 0,
                forall|i: int| 0 <= i < n ==> in_coord_range(#[trigger] points@[i]),
            decreases n - k,
        {
            cells.push(Cell::new(points[k], heights[k], depths[k]));
            k += 1;
        }
        proof {
            assert forall|i: int, j: int|
                0 <= i < cells@.len() && 0 <= j < cells@.len() implies !has_edge(cells@, i, j) by {
                assert(nb_count(cells@, i) == 0);
            }
            assert(edges_valid(cells@)) by {
                assert forall|i: int, k2: int|
                    0 <= i < cells@.len() && 0 <= k2 < nb_count(cells@, i) implies {
                    &&& (#[trigger] nb(cells@, i, k2)).index < cells@.len()
                    &&& nb(cells@, i, k2).index as int != i
                    &&& nb(cells@, i, k2).distance == dist_spec(
                        cells@[i].location,
                        cells@[nb(cells@, i, k2).index as int].location,
                    )
                } by {
                    assert(nb_count(cells@, i) == 0);
                }
            }
            assert(edges_dedup(cells@)) by {
                assert forall|i: int, k1: int, k2: int|
                    0 <= i < cells@.len() && 0 <= k1 < nb_count(cells@, i) && 0 <= k2 < nb_count(
                        cells@,
                        i,
                    ) && k1 != k2 implies (#[trigger] nb(cells@, i, k1)).index != (#[trigger] nb(
                    cells@,
                    i,
                    k2,
                )).index by {
                    assert(nb_count(cells@, i) == 0);
                }
            }
        }
        let tri_len: usize = triangles.len();
        let tri_total: usize = tri_len / 3;
        proof {
            assert(3 * (tri_total as int) == tri_len as int);
        }
        let mut t: usize = 0;
        while t < tri_total
            invariant
                tri_len == triangles@.len(),
                3 * (tri_total as int) == tri_len as int,
                t <= tri_total,
                cells@.len() == n,
                n == points@.len(),
                heights@.len() == n,
                depths@.len() == n,
                forall|k2: int| 0 <= k2 < triangles@.len() ==> (#[trigger] triangles@[k2]) < n,
                tris_distinct(triangles@),
                forall|i: int|
                    0 <= i < n ==> (#[trigger] cells@[i]).location == points@[i]
                        && cells@[i].height == heights@[i] && cells@[i].depth == depths@[i],
                forall|i: int| 0 <= i < n ==> in_coord_range(#[trigger] points@[i]),
                locations_in_range(cells@),
                graph_wf(cells@),
                edges_match_tris(cells@, triangles@, t as int),
            decreases tri_total - t,
        {
            let ghost before = cells@;
            assert(3 * t + 2 < tri_len);
            let a: usize = triangles[3 * t];
            let b: usize = triangles[3 * t + 1];
            let c: usize = triangles[3 * t + 2];
            proof {
                assert(tri_ok(triangles@, t as int));
                assert(a as int == tri_vert(triangles@, t as int, 0));
                assert(b as int == tri_vert(triangles@, t as int, 1));
                assert(c as int == tri_vert(triangles@, t as int, 2));
            }
            link_cells(&mut cells, a, b);
            let ghost mid1 = cells@;
            link_cells(&mut cells, a, c);
            let ghost mid2 = cells@;
            link_cells(&mut cells, b, c);
            proof {
                assert forall|i: int, j: int|
                    0 <= i < before.len() && 0 <= j < before.len() implies ((#[trigger] has_edge(
                    mid2,
                    i,
                    j,
                )) <==> has_edge(mid1, i, j) || (i == a as int && j == c as int) || (i == c as int
                    && j == a as int)) by {}
                assert forall|i: int, j: int|
                    0 <= i < before.len() && 0 <= j < before.len() implies ((#[trigger] has_edge(
                    cells@,
                    i,
                    j,
                )) <==> has_edge(mid2, i, j) || (i == b as int && j == c as int) || (i == c as int
                    && j == b as int)) by {}
                lemma_tri_linked_extend(triangles@, t as int, before, mid1, mid2, cells@);
                assert forall|i: int|
                    0 <= i < n implies (#[trigger] cells@[i]).location == points@[i]
                    && cells@[i].height == heights@[i] && cells@[i].depth == depths@[i] by {
                    assert(mid1[i].location == before[i].location && mid1[i].height
                        == before[i].height && mid1[i].depth == before[i].depth);
                    assert(mid2[i].location == mid1[i].location && mid2[i].height == mid1[i].height
                        && mid2[i].depth == mid1[i].depth);
                    assert(cells@[i].location == mid2[i].location && cells@[i].height
                        == mid2[i].height && cells@[i].depth == mid2[i].depth);
                }
            }
            t += 1;
        }
        Terrain { cells }
    }
}

impl Terrain {
    /// The standing invariant of a built terrain: a well-formed neighbor
    /// graph over in-range locations.
    pub open spec fn wf(&self) -> bool {
        &&& graph_wf(self@)
        &&& locations_in_range(self@)
    }
}

/// Applying deltas changes only heights and depths: the number of cells,
/// every location and every neighbor list stay as they were.
pub proof fn lemma_apply_preserves_structure(cells: Seq<Cell>, ds: Seq<TerrainDelta>)
    ensures
        apply_deltas_spec(cells, ds).len() == cells.len(),
        forall|i: int|
            0 <= i < cells.len() ==> (#[trigger] apply_deltas_spec(cells, ds)[i]).location
                == cells[i].location && apply_deltas_spec(cells, ds)[i].neighbor_data
                == cells[i].neighbor_data,
    decreases ds.len(),
{
    reveal_with_fuel(apply_deltas_spec, 2);
    if ds.len() > 0 {
        lemma_apply_preserves_structure(apply_delta_spec(cells, ds[0]), ds.skip(1));
    }
}

/// Two cell sequences with the same locations and neighbor lists have the
/// same graph, so the graph invariant carries over.
pub proof fn lemma_wf_same_structure(c1: Seq<Cell>, c2: Seq<Cell>)
    requires
        c1.len() == c2.len(),
        forall|i: int|
            0 <= i < c1.len() ==> (#[trigger] c2[i]).location == c1[i].location
                && c2[i].neighbor_data == c1[i].neighbor_data,
        graph_wf(c1),
        locations_in_range(c1),
    ensures
        graph_wf(c2),
        locations_in_range(c2),
{
    assert forall|i: int, k: int| 0 <= i < c2.len() implies #[trigger] nb(c2, i, k) == nb(c1, i, k)
        && nb_count(c2, i) == nb_count(c1, i) by {}
    assert forall|i: int, j: int|
        0 <= i < c1.len() implies ((#[trigger] has_edge(c2, i, j)) <==> has_edge(c1, i, j)) by {
        if has_edge(c2, i, j) {
            let k = choose|k: int|
                0 <= k < nb_count(c2, i) && (#[trigger] nb(c2, i, k)).index as int == j;
            assert(nb(c1, i, k).index as int == j);
            assert(has_edge(c1, i, j));
        }
        if has_edge(c1, i, j) {
            let k = choose|k: int|
                0 <= k < nb_count(c1, i) && (#[trigger] nb(c1, i, k)).index as int == j;
            assert(nb(c2, i, k).index as int == j);
            assert(has_edge(c2, i, j));
        }
    }
    assert(edges_valid(c2)) by {
        assert forall|i: int, k: int| 0 <= i < c2.len() && 0 <= k < nb_count(c2, i) implies {
            &&& (#[trigger] nb(c2, i, k)).index < c2.len()
            &&& nb(c2, i, k).index as int != i
            &&& nb(c2, i, k).distance == dist_spec(
                c2[i].location,
                c2[nb(c2, i, k).index as int].location,
            )
        } by {
            assert(nb(c2, i, k) == nb(c1, i, k));
            assert(nb(c1, i, k).distance == dist_spec(
                c1[i].location,
                c1[nb(c1, i, k).index as int].location,
            ));
        }
    }
    assert(edges_dedup(c2)) by {
        assert forall|i: int, k1: int, k2: int|
            0 <= i < c2.len() && 0 <= k1 < nb_count(c2, i) && 0 <= k2 < nb_count(c2, i) && k1 != k2
            implies (#[trigger] nb(c2, i, k1)).index != (#[trigger] nb(c2, i, k2)).index by {
            assert(nb(c2, i, k1) == nb(c1, i, k1));
            assert(nb(c2, i, k2) == nb(c1, i, k2));
        }
    }
    assert(edges_symmetric(c2)) by {
        assert forall|i: int, j: int|
            0 <= i < c2.len() && 0 <= j < c2.len() && #[trigger] has_edge(c2, i, j) implies
        has_edge(c2, j, i) by {
            assert(has_edge(c1, i, j));
        }
    }
}

} // verus!
