//! Blue-noise point sampling by dart throwing, plus the point-cache record
//! codec.
//!
//! The sampler pops anchors off a LIFO queue and probes a fixed ring of 100
//! directions around each anchor, starting at a random direction and walking
//! a random way round; a candidate is kept only if it lies inside both axis
//! bounds and no already-emitted point lies strictly within the minimum
//! spacing.  The proximity index is a verified linear scan over the emitted
//! points.
//!
//! A cache record is 16 bytes: the two coordinates, x then y, each as its
//! 64-bit two's-complement fixed-point value in little-endian order.  A
//! partial trailing record is ignored.

use vstd::prelude::*;

use crate::fixed::div_tz;
use crate::fixed::half_tz;
use crate::fixed::mul_div_scale;
use crate::fixed::COORD_MAX;
use crate::point::in_coord_range;
use crate::point::sq_dist;
use crate::point::Point;
use crate::rng::random_u64;

verus! {

/// How many candidate directions are probed around one anchor.
pub const GEN_SEARCH_STEP_COUNT: usize = 100;

pub const PROBE_COS: [i64; 100] = [
    1000000, 998027, 992115, 982287, 968583,
    951057, 929776, 904827, 876307, 844328,
    809017, 770513, 728969, 684547, 637424,
    587785, 535827, 481754, 425779, 368125,
    309017, 248690, 187381, 125333, 62791,
    0, -62791, -125333, -187381, -248690,
    -309017, -368125, -425779, -481754, -535827,
    -587785, -637424, -684547, -728969, -770513,
    -809017, -844328, -876307, -904827, -929776,
    -951057, -968583, -982287, -992115, -998027,
    -1000000, -998027, -992115, -982287, -968583,
    -951057, -929776, -904827, -876307, -844328,
    -809017, -770513, -728969, -684547, -637424,
    -587785, -535827, -481754, -425779, -368125,
    -309017, -248690, -187381, -125333, -62791,
    0, 62791, 125333, 187381, 248690,
    309017, 368125, 425779, 481754, 535827,
    587785, 637424, 684547, 728969, 770513,
    809017, 844328, 876307, 904827, 929776,
    951057, 968583, 982287, 992115, 998027,
];

pub const PROBE_SIN: [i64; 100] = [
    0, 62791, 125333, 187381, 248690,
    309017, 368125, 425779, 481754, 535827,
    587785, 637424, 684547, 728969, 770513,
    809017, 844328, 876307, 904827, 929776,
    951057, 968583, 982287, 992115, 998027,
    1000000, 998027, 992115, 982287, 968583,
    951057, 929776, 904827, 876307, 844328,
    809017, 770513, 728969, 684547, 637424,
    587785, 535827, 481754, 425779, 368125,
    309017, 248690, 187381, 125333, 62791,
    0, -62791, -125333, -187381, -248690,
    -309017, -368125, -425779, -481754, -535827,
    -587785, -637424, -684547, -728969, -770513,
    -809017, -844328, -876307, -904827, -929776,
    -951057, -968583, -982287, -992115, -998027,
    -1000000, -998027, -992115, -982287, -968583,
    -951057, -929776, -904827, -876307, -844328,
    -809017, -770513, -728969, -684547, -637424,
    -587785, -535827, -481754, -425779, -368125,
    -309017, -248690, -187381, -125333, -62791,
];

/// A half-open interval over one axis.
pub struct Bounds {
    pub min_inc: i64,
    pub max_exc: i64,
}

impl Bounds {
    /// Nonempty and within the representable coordinate range.
    pub open spec fn wf(&self) -> bool {
        -COORD_MAX <= self.min_inc < self.max_exc <= COORD_MAX
    }

    pub open spec fn contains_spec(&self, v: int) -> bool {
        self.min_inc <= v < self.max_exc
    }

    pub fn new(min_inc: i64, max_exc: i64) -> (b: Bounds)
        requires
            -COORD_MAX <= min_inc < max_exc <= COORD_MAX,
        ensures
            b.min_inc == min_inc,
            b.max_exc == max_exc,
            b.wf(),
    {
        Bounds { min_inc, max_exc }
    }

    pub fn contains(&self, val: i64) -> (r: bool)
        ensures
            r == self.contains_spec(val as int),
    {
        self.min_inc <= val && val < self.max_exc
    }
}

/// The dart-throwing sampler.  `emitted` is the ghost history of every
/// point handed out; it always equals the proximity index's contents.
pub struct PointGenerator {
    pub x_bounds: Bounds,
    pub y_bounds: Bounds,
    pub min_spacing: i64,
    pub point_queue: Vec<Point>,
    pub proximity_index: Vec<Point>,
    pub init: bool,
    pub emitted: Ghost<Seq<Point>>,
}

/// The exact center of the bounding rectangle (rounded toward the lower
/// corner when a span is odd).
pub open spec fn center_spec(xb: Bounds, yb: Bounds) -> Point {
    Point {
        x: (xb.min_inc + div_tz(xb.max_exc - xb.min_inc, 2)) as i64,
        y: (yb.min_inc + div_tz(yb.max_exc - yb.min_inc, 2)) as i64,
    }
}

/// The probe ring index visited at step `k` from base direction `base`,
/// walking forward or backward around the ring.
pub open spec fn probe_index(base: int, flip: bool, k: int) -> int
    recommends
        0 <= base < 100,
        0 <= k < 100,
{
    if flip {
        (base + 100 - k) % 100
    } else {
        (base + k) % 100
    }
}

impl PointGenerator {
    /// Both coordinates inside this generator's bounds.
    pub open spec fn in_bounds_pt(&self, p: Point) -> bool {
        &&& self.x_bounds.contains_spec(p.x as int)
        &&& self.y_bounds.contains_spec(p.y as int)
    }

    /// The sampler invariant: the emitted history is exactly the proximity
    /// index; every emitted point lies in bounds; every two distinct emitted
    /// points are at least the minimum spacing apart (by squared distance);
    /// anchors waiting in the queue are emitted points too.
    pub open spec fn wf(&self) -> bool {
        &&& self.x_bounds.wf()
        &&& self.y_bounds.wf()
        &&& 0 < self.min_spacing <= COORD_MAX
        &&& self.emitted@ == self.proximity_index@
        &&& !self.init ==> self.proximity_index@.len() == 0 && self.point_queue@.len() == 0
        &&& forall|i: int|
            0 <= i < self.proximity_index@.len() ==> self.in_bounds_pt(
                #[trigger] self.proximity_index@[i],
            )
        &&& forall|i: int, j: int|
            0 <= i < self.proximity_index@.len() && 0 <= j < self.proximity_index@.len() && i != j
                ==> sq_dist(
                #[trigger] self.proximity_index@[i],
                #[trigger] self.proximity_index@[j],
            ) >= self.min_spacing * self.min_spacing
        &&& forall|i: int|
            0 <= i < self.point_queue@.len() ==> self.in_bounds_pt(
                #[trigger] self.point_queue@[i],
            )
        &&& forall|i: int|
            0 <= i < self.point_queue@.len() ==> self.proximity_index@.contains(
                #[trigger] self.point_queue@[i],
            )
    }

    /// Same bounds and spacing as another generator state.
    pub open spec fn same_config(&self, other: &PointGenerator) -> bool {
        &&& self.x_bounds == other.x_bounds
        &&& self.y_bounds == other.y_bounds
        &&& self.min_spacing == other.min_spacing
    }

    pub fn new(x_bounds: Bounds, y_bounds: Bounds, min_spacing: i64) -> (g: PointGenerator)
        requires
            x_bounds.wf(),
            y_bounds.wf(),
            0 < min_spacing <= COORD_MAX,
        ensures
            g.wf(),
            g.x_bounds == x_bounds,
            g.y_bounds == y_bounds,
            g.min_spacing == min_spacing,
            !g.init,
            g.emitted@.len() == 0,
    {
        PointGenerator {
            x_bounds,
            y_bounds,
            min_spacing,
            point_queue: Vec::new(),
            proximity_index: Vec::new(),
            init: false,
            emitted: Ghost(Seq::empty()),
        }
    }

    /// The next sampled point, or nothing once the space is saturated.
    /// The first call yields the exact center of the bounding rectangle.
    /// Afterwards a point is owed exactly as long as some queued anchor has
    /// an acceptable ring direction; every point handed out lies in both
    /// bounds, keeps the minimum spacing (by squared distance) from every
    /// point handed out before, and (after the first) is the ring candidate
    /// of some previously emitted anchor.  Once the call returns nothing the
    /// queue is empty, so the sequence has ended for good.
    pub fn next_point(&mut self) -> (r: Option<Point>)
        requires
            old(self).wf(),
        ensures
            final(self).wf(),
            final(self).same_config(old(self)),
            final(self).init,
            !old(self).init ==> r == Some(center_spec(old(self).x_bounds, old(self).y_bounds)),
            old(self).init ==> (r is None <==> old(self).saturated()),
            old(self).init && r is Some ==> exists|a: Point, idx: int|
                #![auto]
                old(self).emitted@.contains(a) && 0 <= idx < 100 && old(self).probe_accepts(a, idx)
                    && r.unwrap() == old(self).candidate_spec(a, idx),
            r is Some ==> final(self).emitted@ == old(self).emitted@.push(r.unwrap())
                && final(self).in_bounds_pt(r.unwrap()),
            r is None ==> final(self).emitted@ == old(self).emitted@
                && final(self).point_queue@.len() == 0,
    {
        if !self.init {
            Some(self.gen_init_point())
        } else {
            self.gen_next_point()
        }
    }

    /// The first point: the exact center of the bounding rectangle.
    fn gen_init_point(&mut self) -> (p: Point)
        requires
            old(self).wf(),
            !old(self).init,
        ensures
            final(self).wf(),
            final(self).same_config(old(self)),
            final(self).init,
            p == center_spec(old(self).x_bounds, old(self).y_bounds),
            final(self).in_bounds_pt(p),
            final(self).emitted@ == old(self).emitted@.push(p),
    {
        self.init = true;
        let span_x: i64 = self.x_bounds.max_exc - self.x_bounds.min_inc;
        let span_y: i64 = self.y_bounds.max_exc - self.y_bounds.min_inc;
        let init_point = Point {
            x: self.x_bounds.min_inc + half_tz(span_x),
            y: self.y_bounds.min_inc + half_tz(span_y),
        };
        self.point_queue.push(init_point);
        self.proximity_index.push(init_point);
        proof {
            self.emitted@ = self.emitted@.push(init_point);
            assert forall|i: int|
                0 <= i < self.point_queue@.len() implies self.proximity_index@.contains(
                #[trigger] self.point_queue@[i],
            ) by {
                assert(self.proximity_index@[0] == init_point);
            }
        }
        init_point
    }

    /// Pop anchors until one yields a valid neighbor point; an anchor that
    /// yields none is discarded for good.  A point is returned exactly when
    /// some queued anchor has an acceptable ring direction, and the point is
    /// that anchor's ring candidate; otherwise the queue drains and the
    /// sequence ends.
    fn gen_next_point(&mut self) -> (r: Option<Point>)
        requires
            old(self).wf(),
        ensures
            final(self).wf(),
            final(self).same_config(old(self)),
            final(self).init == old(self).init,
            r is None <==> old(self).saturated(),
            r is Some ==> exists|a: Point, idx: int|
                #![auto]
                old(self).emitted@.contains(a) && 0 <= idx < 100 && old(self).probe_accepts(a, idx)
                    && r.unwrap() == old(self).candidate_spec(a, idx),
            r is Some ==> final(self).emitted@ == old(self).emitted@.push(r.unwrap())
                && final(self).in_bounds_pt(r.unwrap()),
            r is None ==> final(self).emitted@ == old(self).emitted@
                && final(self).point_queue@.len() == 0,
    {
        while self.point_queue.len() > 0
            invariant
                self.wf(),
                self.same_config(old(self)),
                self.init == old(self).init,
                self.emitted@ == old(self).emitted@,
                self.proximity_index@ == old(self).proximity_index@,
                self.point_queue@.len() <= old(self).point_queue@.len(),
                self.point_queue@ == old(self).point_queue@.take(self.point_queue@.len() as int),
                forall|m: int|
                    self.point_queue@.len() <= m < old(self).point_queue@.len() ==> !old(
                        self,
                    ).anchor_accepts(#[trigger] old(self).point_queue@[m]),
            decreases self.point_queue@.len(),
        {
            proof {
                assert(self.point_queue@ =~= old(self).point_queue@.take(
                    self.point_queue@.len() as int,
                ));
            }
            let ghost q_len = self.point_queue@.len() as int;
            let anchor: Point = self.point_queue.pop().unwrap();
            proof {
                assert(anchor == old(self).point_queue@[q_len - 1]);
                assert(self.point_queue@ =~= old(self).point_queue@.take(q_len - 1));
            }
            let found = self.gen_neighbor_point(&anchor);
            proof {
                lemma_accepts_same_state(*self, *old(self), anchor);
            }
            if let Some(neighbor_point) = found {
                proof {
                    assert(!old(self).saturated()) by {
                        assert(old(self).anchor_accepts(old(self).point_queue@[q_len - 1]));
                    }
                    assert(self.proximity_index@.contains(anchor));
                    assert(old(self).emitted@.contains(anchor));
                }
                let ghost pre_index = self.proximity_index@;
                self.point_queue.push(anchor);
                self.point_queue.push(neighbor_point);
                self.proximity_index.push(neighbor_point);
                proof {
                    self.emitted@ = self.emitted@.push(neighbor_point);
                    assert forall|i: int, j: int|
                        0 <= i < self.proximity_index@.len() && 0 <= j
                            < self.proximity_index@.len() && i != j implies sq_dist(
                        #[trigger] self.proximity_index@[i],
                        #[trigger] self.proximity_index@[j],
                    ) >= self.min_spacing * self.min_spacing by {
                        crate::terrain::lemma_dist_symmetric(
                            self.proximity_index@[i],
                            self.proximity_index@[j],
                        );
                    }
                    assert forall|i: int|
                        0 <= i < self.point_queue@.len() implies self.proximity_index@.contains(
                        #[trigger] self.point_queue@[i],
                    ) by {
                        if self.point_queue@[i] == neighbor_point {
                            assert(self.proximity_index@[pre_index.len() as int]
                                == neighbor_point);
                        } else {
                            assert(pre_index.contains(self.point_queue@[i]));
                            let j = choose|j: int|
                                0 <= j < pre_index.len() && pre_index[j] == self.point_queue@[i];
                            assert(self.proximity_index@[j] == self.point_queue@[i]);
                        }
                    }
                }
                return Some(neighbor_point);
            }
        }
        proof {
            assert(old(self).saturated());
        }
        None
    }

    /// Try the 100 probe directions around one anchor, starting at a random
    /// base direction and walking a random way round the ring.  The walk
    /// visits every ring direction whatever was drawn, so a point is found
    /// exactly when some direction accepts one; only which point is random.
    fn gen_neighbor_point(&self, anchor_point: &Point) -> (r: Option<Point>)
        requires
            self.wf(),
            self.in_bounds_pt(*anchor_point),
        ensures
            r is Some <==> self.anchor_accepts(*anchor_point),
            r is Some ==> exists|idx: int|
                0 <= idx < 100 && #[trigger] self.probe_accepts(*anchor_point, idx) && r.unwrap()
                    == self.candidate_spec(*anchor_point, idx),
            r is Some ==> self.in_bounds_pt(r.unwrap()) && forall|q: int|
                0 <= q < self.proximity_index@.len() ==> sq_dist(
                    r.unwrap(),
                    #[trigger] self.proximity_index@[q],
                ) >= self.min_spacing * self.min_spacing,
            exists|base: int, flip: bool|
                0 <= base < 100 && r == #[trigger] self.probe_result_spec(
                    *anchor_point,
                    base,
                    flip,
                    0,
                ),
    {
        let base: usize = (random_u64() % 100) as usize;
        let flip: bool = random_u64() % 2 == 1;
        let r = self.probe_candidates(anchor_point, base, flip);
        proof {
            assert(r == self.probe_result_spec(*anchor_point, base as int, flip, 0));
            lemma_probe_covers_ring(*self, *anchor_point, base as int, flip);
            if r is Some {
                lemma_probe_some_form(*self, *anchor_point, base as int, flip, 0);
            }
        }
        r
    }

    /// The deterministic probe walk: the first acceptable candidate among
    /// the 100 ring directions taken from `base` in the direction given by
    /// `flip`, exactly as `probe_result_spec` describes.
    pub fn probe_candidates(&self, anchor_point: &Point, base: usize, flip: bool) -> (r: Option<
        Point,
    >)
        requires
            self.wf(),
            self.in_bounds_pt(*anchor_point),
            base < 100,
        ensures
            r == self.probe_result_spec(*anchor_point, base as int, flip, 0),
            r is Some ==> self.in_bounds_pt(r.unwrap()) && forall|q: int|
                0 <= q < self.proximity_index@.len() ==> sq_dist(
                    r.unwrap(),
                    #[trigger] self.proximity_index@[q],
                ) >= self.min_spacing * self.min_spacing,
    {
        let mut step_num: usize = 0;
        while step_num < GEN_SEARCH_STEP_COUNT
            invariant
                self.wf(),
                self.in_bounds_pt(*anchor_point),
                base < 100,
                step_num <= 100,
                self.probe_result_spec(*anchor_point, base as int, flip, 0)
                    == self.probe_result_spec(*anchor_point, base as int, flip, step_num as int),
            decreases 100 - step_num,
        {
            let idx: usize = if flip {
                (base + 100 - step_num) % 100
            } else {
                (base + step_num) % 100
            };
            proof {
                assert(idx as int == probe_index(base as int, flip, step_num as int));
            }
            let dx: i128 = mul_div_scale(self.min_spacing, PROBE_COS[idx]);
            let dy: i128 = mul_div_scale(self.min_spacing, PROBE_SIN[idx]);
            let cx: i128 = anchor_point.x as i128 + dx;
            let cy: i128 = anchor_point.y as i128 + dy;
            let in_x: bool = self.x_bounds.min_inc as i128 <= cx && cx
                < self.x_bounds.max_exc as i128;
            let in_y: bool = self.y_bounds.min_inc as i128 <= cy && cy
                < self.y_bounds.max_exc as i128;
            if in_x && in_y {
                let candidate_point = Point { x: cx as i64, y: cy as i64 };
                assert(candidate_point == self.candidate_spec(
                    *anchor_point,
                    probe_index(base as int, flip, step_num as int),
                ));
                if self.point_has_space(&candidate_point) {
                    assert(self.probe_accepts(
                        *anchor_point,
                        probe_index(base as int, flip, step_num as int),
                    ));
                    return Some(candidate_point);
                }
            }
            proof {
                assert(!self.probe_accepts(
                    *anchor_point,
                    probe_index(base as int, flip, step_num as int),
                ));
            }
            step_num += 1;
        }
        None
    }

    /// The exact x coordinate of the candidate at ring index `idx`.
    pub open spec fn candidate_x(&self, anchor: Point, idx: int) -> int {
        anchor.x + div_tz(self.min_spacing * PROBE_COS@[idx], crate::fixed::SCALE as int)
    }

    /// The exact y coordinate of the candidate at ring index `idx`.
    pub open spec fn candidate_y(&self, anchor: Point, idx: int) -> int {
        anchor.y + div_tz(self.min_spacing * PROBE_SIN@[idx], crate::fixed::SCALE as int)
    }

    /// The candidate point at ring index `idx` (meaningful once in bounds).
    pub open spec fn candidate_spec(&self, anchor: Point, idx: int) -> Point {
        Point {
            x: self.candidate_x(anchor, idx) as i64,
            y: self.candidate_y(anchor, idx) as i64,
        }
    }

    /// A candidate is accepted when it lies inside both bounds and no
    /// emitted point lies strictly within the minimum spacing of it.
    pub open spec fn probe_accepts(&self, anchor: Point, idx: int) -> bool {
        &&& self.x_bounds.contains_spec(self.candidate_x(anchor, idx))
        &&& self.y_bounds.contains_spec(self.candidate_y(anchor, idx))
        &&& forall|q: int|
            0 <= q < self.proximity_index@.len() ==> sq_dist(
                self.candidate_spec(anchor, idx),
                #[trigger] self.proximity_index@[q],
            ) >= self.min_spacing * self.min_spacing
    }

    /// The first accepted candidate from probe step `k` on, if any.
    pub open spec fn probe_result_spec(&self, anchor: Point, base: int, flip: bool, k: int) -> Option<
        Point,
    >
        decreases 100 - k,
    {
        if k < 0 || k >= 100 {
            None
        } else if self.probe_accepts(anchor, probe_index(base, flip, k)) {
            Some(self.candidate_spec(anchor, probe_index(base, flip, k)))
        } else {
            self.probe_result_spec(anchor, base, flip, k + 1)
        }
    }

    /// Some ring direction around this anchor yields an acceptable point.
    pub open spec fn anchor_accepts(&self, anchor: Point) -> bool {
        exists|idx: int| 0 <= idx < 100 && #[trigger] self.probe_accepts(anchor, idx)
    }

    /// No queued anchor can yield any further point: the sampler is
    /// spatially saturated and the sequence has ended.
    pub open spec fn saturated(&self) -> bool {
        forall|q: int|
            0 <= q < self.point_queue@.len() ==> !self.anchor_accepts(
                #[trigger] self.point_queue@[q],
            )
    }

    /// Whether no emitted point lies strictly within the minimum spacing of
    /// `point`: a linear scan of the proximity index by squared distance.
    fn point_has_space(&self, point: &Point) -> (r: bool)
        requires
            self.wf(),
            in_coord_range(*point),
        ensures
            r == forall|q: int|
                0 <= q < self.proximity_index@.len() ==> sq_dist(
                    *point,
                    #[trigger] self.proximity_index@[q],
                ) >= self.min_spacing * self.min_spacing,
    {
        assert((self.min_spacing as u128) * (self.min_spacing as u128) <= u128::MAX)
            by (nonlinear_arith)
            requires
                0 < self.min_spacing <= 0x7fff_ffff_ffff_ffffi64,
        ;
        let ms_sq: u128 = (self.min_spacing as u128) * (self.min_spacing as u128);
        let n: usize = self.proximity_index.len();
        let mut q: usize = 0;
        while q < n
            invariant
                self.wf(),
                in_coord_range(*point),
                n == self.proximity_index@.len(),
                q <= n,
                ms_sq as int == self.min_spacing * self.min_spacing,
                forall|m: int|
                    0 <= m < q ==> sq_dist(*point, #[trigger] self.proximity_index@[m])
                        >= self.min_spacing * self.min_spacing,
            decreases n - q,
        {
            let other: Point = self.proximity_index[q];
            proof {
                assert(self.in_bounds_pt(other));
            }
            let dx: i128 = point.x as i128 - other.x as i128;
            let dy: i128 = point.y as i128 - other.y as i128;
            assert(dx * dx + dy * dy <= 32_000_000_000_000_000_000_000_000_000_000i128 && 0 <= dx
                * dx && 0 <= dy * dy) by (nonlinear_arith)
                requires
                    -4_000_000_000_000_000 <= dx <= 4_000_000_000_000_000,
                    -4_000_000_000_000_000 <= dy <= 4_000_000_000_000_000,
            ;
            let d_sq: u128 = (dx * dx + dy * dy) as u128;
            if d_sq < ms_sq {
                return false;
            }
            q += 1;
        }
        true
    }
}

/// A probe walk that came back empty rejected every step from `k` on.
proof fn lemma_probe_none_rejects_all(
    g: PointGenerator,
    anchor: Point,
    base: int,
    flip: bool,
    k: int,
)
    requires
        0 <= k <= 100,
        g.probe_result_spec(anchor, base, flip, k) is None,
    ensures
        forall|m: int|
            k <= m < 100 ==> !g.probe_accepts(anchor, #[trigger] probe_index(base, flip, m)),
    decreases 100 - k,
{
    if k < 100 {
        lemma_probe_none_rejects_all(g, anchor, base, flip, k + 1);
    }
}

/// A found point is the candidate of some accepted ring direction.
proof fn lemma_probe_some_form(g: PointGenerator, anchor: Point, base: int, flip: bool, k: int)
    requires
        0 <= base < 100,
        0 <= k <= 100,
        g.probe_result_spec(anchor, base, flip, k) is Some,
    ensures
        exists|idx: int|
            0 <= idx < 100 && #[trigger] g.probe_accepts(anchor, idx) && g.probe_result_spec(
                anchor,
                base,
                flip,
                k,
            ).unwrap() == g.candidate_spec(anchor, idx),
    decreases 100 - k,
{
    let idx = probe_index(base, flip, k);
    if g.probe_accepts(anchor, idx) {
        assert(0 <= idx < 100) by {
            if flip {
                vstd::arithmetic::div_mod::lemma_mod_bound(base + 100 - k, 100);
            } else {
                vstd::arithmetic::div_mod::lemma_mod_bound(base + k, 100);
            }
        }
    } else {
        lemma_probe_some_form(g, anchor, base, flip, k + 1);
    }
}

/// Wherever the walk starts and whichever way round it goes, all 100 ring
/// directions are visited: the walk finds a point exactly when some ring
/// direction accepts one.
pub proof fn lemma_probe_covers_ring(g: PointGenerator, anchor: Point, base: int, flip: bool)
    requires
        0 <= base < 100,
    ensures
        g.probe_result_spec(anchor, base, flip, 0) is Some <==> g.anchor_accepts(anchor),
{
    if g.probe_result_spec(anchor, base, flip, 0) is Some {
        lemma_probe_some_form(g, anchor, base, flip, 0);
    }
    if g.anchor_accepts(anchor) && g.probe_result_spec(anchor, base, flip, 0) is None {
        let idx = choose|idx: int| 0 <= idx < 100 && #[trigger] g.probe_accepts(anchor, idx);
        let k0: int = if flip {
            if base >= idx {
                base - idx
            } else {
                base + 100 - idx
            }
        } else {
            if idx >= base {
                idx - base
            } else {
                idx + 100 - base
            }
        };
        assert(0 <= k0 < 100);
        assert(probe_index(base, flip, k0) == idx) by {
            if flip {
                lemma_ring_mod(base + 100 - k0, idx);
            } else {
                lemma_ring_mod(base + k0, idx);
            }
        }
        lemma_probe_none_rejects_all(g, anchor, base, flip, 0);
        assert(!g.probe_accepts(anchor, probe_index(base, flip, k0)));
    }
}

/// Reduction modulo the ring size for a value at most one turn beyond it.
proof fn lemma_ring_mod(v: int, idx: int)
    requires
        0 <= idx < 100,
        v == idx || v == idx + 100 || v == idx + 200,
    ensures
        v % 100 == idx,
{
    vstd::arithmetic::div_mod::lemma_mod_multiples_vanish(0, idx, 100);
    vstd::arithmetic::div_mod::lemma_mod_multiples_vanish(1, idx, 100);
    vstd::arithmetic::div_mod::lemma_mod_multiples_vanish(2, idx, 100);
    vstd::arithmetic::div_mod::lemma_small_mod(idx as nat, 100nat);
}

/// Acceptance depends only on the bounds, the spacing and the emitted
/// points, never on the queue.
proof fn lemma_accepts_same_state(g1: PointGenerator, g2: PointGenerator, anchor: Point)
    requires
        g1.x_bounds == g2.x_bounds,
        g1.y_bounds == g2.y_bounds,
        g1.min_spacing == g2.min_spacing,
        g1.proximity_index@ == g2.proximity_index@,
    ensures
        forall|idx: int|
            #[trigger] g1.probe_accepts(anchor, idx) == g2.probe_accepts(anchor, idx),
        forall|idx: int|
            #[trigger] g1.candidate_spec(anchor, idx) == g2.candidate_spec(anchor, idx),
        g1.anchor_accepts(anchor) == g2.anchor_accepts(anchor),
{
    assert forall|idx: int|
        #[trigger] g1.probe_accepts(anchor, idx) == g2.probe_accepts(anchor, idx) by {
        assert(g1.candidate_x(anchor, idx) == g2.candidate_x(anchor, idx));
        assert(g1.candidate_y(anchor, idx) == g2.candidate_y(anchor, idx));
    }
    if g1.anchor_accepts(anchor) {
        let idx = choose|idx: int| 0 <= idx < 100 && #[trigger] g1.probe_accepts(anchor, idx);
        assert(g2.probe_accepts(anchor, idx));
    }
    if g2.anchor_accepts(anchor) {
        let idx = choose|idx: int| 0 <= idx < 100 && #[trigger] g2.probe_accepts(anchor, idx);
        assert(g1.probe_accepts(anchor, idx));
    }
}

/// Spacing law: any two distinct points the sampler has emitted are at
/// least the minimum spacing apart, measured by exact squared distance.
pub proof fn lemma_emitted_spacing(g: PointGenerator, i: int, j: int)
    requires
        g.wf(),
        0 <= i < g.emitted@.len(),
        0 <= j < g.emitted@.len(),
        i != j,
    ensures
        sq_dist(g.emitted@[i], g.emitted@[j]) >= g.min_spacing * g.min_spacing,
{
}

/// Bounds law: every point the sampler has emitted satisfies both axis
/// membership predicates.
pub proof fn lemma_emitted_in_bounds(g: PointGenerator, i: int)
    requires
        g.wf(),
        0 <= i < g.emitted@.len(),
    ensures
        g.x_bounds.contains_spec(g.emitted@[i].x as int),
        g.y_bounds.contains_spec(g.emitted@[i].y as int),
{
}

/// The place value of little-endian byte `i` in a 64-bit value.
pub open spec fn byte_shift(i: int) -> int {
    if i == 0 {
        0x1
    } else if i == 1 {
        0x100
    } else if i == 2 {
        0x1_0000
    } else if i == 3 {
        0x100_0000
    } else if i == 4 {
        0x1_0000_0000
    } else if i == 5 {
        0x100_0000_0000
    } else if i == 6 {
        0x1_0000_0000_0000
    } else {
        0x100_0000_0000_0000
    }
}

/// The eight little-endian bytes of a 64-bit value.
pub open spec fn le_bytes8(v: int) -> Seq<u8> {
    Seq::new(8, |i: int| ((v / byte_shift(i)) % 256) as u8)
}

/// The 64-bit two's-complement pattern of a signed coordinate.
pub open spec fn u64_bits_of(x: int) -> int {
    if x >= 0 {
        x
    } else {
        x + 0x1_0000_0000_0000_0000
    }
}

/// The signed coordinate encoded by a 64-bit two's-complement pattern.
pub open spec fn i64_of_bits(b: int) -> int {
    if b < 0x8000_0000_0000_0000 {
        b
    } else {
        b - 0x1_0000_0000_0000_0000
    }
}

/// The 64-bit value encoded by eight little-endian bytes.
pub open spec fn decode_u64(bs: Seq<u8>) -> int {
    bs[0] + 0x100 * bs[1] + 0x1_0000 * bs[2] + 0x100_0000 * bs[3] + 0x1_0000_0000 * bs[4]
        + 0x100_0000_0000 * bs[5] + 0x1_0000_0000_0000 * bs[6] + 0x100_0000_0000_0000 * bs[7]
}

/// One 16-byte cache record: x then y, each as 8 little-endian bytes of the
/// coordinate's two's-complement pattern.
pub open spec fn record_bytes(p: Point) -> Seq<u8> {
    le_bytes8(u64_bits_of(p.x as int)) + le_bytes8(u64_bits_of(p.y as int))
}

/// The flat byte stream of a point sequence.
pub open spec fn points_bytes(ps: Seq<Point>) -> Seq<u8>
    decreases ps.len(),
{
    if ps.len() == 0 {
        Seq::empty()
    } else {
        points_bytes(ps.drop_last()) + record_bytes(ps.last())
    }
}

/// The point stored in the 16-byte record starting at `pos`.
pub open spec fn record_at(bs: Seq<u8>, pos: int) -> Point {
    Point {
        x: i64_of_bits(decode_u64(bs.subrange(pos, pos + 8))) as i64,
        y: i64_of_bits(decode_u64(bs.subrange(pos + 8, pos + 16))) as i64,
    }
}

/// The two's-complement pattern of a signed coordinate.
fn i64_to_bits(x: i64) -> (r: u64)
    ensures
        r as int == u64_bits_of(x as int),
{
    if x >= 0 {
        x as u64
    } else {
        ((x as i128) + 0x1_0000_0000_0000_0000i128) as u64
    }
}

/// The signed coordinate of a two's-complement pattern.
fn bits_to_i64(b: u64) -> (r: i64)
    ensures
        r as int == i64_of_bits(b as int),
{
    if b < 0x8000_0000_0000_0000u64 {
        b as i64
    } else {
        ((b as i128) - 0x1_0000_0000_0000_0000i128) as i64
    }
}

/// Append the eight little-endian bytes of `v`.
fn push_le_bytes(buf: &mut Vec<u8>, v: u64)
    ensures
        final(buf)@ == old(buf)@ + le_bytes8(v as int),
{
    buf.push((v % 0x100) as u8);
    buf.push(((v / 0x100) % 0x100) as u8);
    buf.push(((v / 0x1_0000) % 0x100) as u8);
    buf.push(((v / 0x100_0000) % 0x100) as u8);
    buf.push(((v / 0x1_0000_0000) % 0x100) as u8);
    buf.push(((v / 0x100_0000_0000) % 0x100) as u8);
    buf.push(((v / 0x1_0000_0000_0000) % 0x100) as u8);
    buf.push(((v / 0x100_0000_0000_0000) % 0x100) as u8);
    proof {
        assert(buf@ =~= old(buf)@ + le_bytes8(v as int));
    }
}

/// Encodes sampled points into the cache byte format; the surrounding
/// program decides where the bytes go.
pub struct PointsWriter {
    buffer: Vec<u8>,
}

impl View for PointsWriter {
    type V = Seq<u8>;

    closed spec fn view(&self) -> Seq<u8> {
        self.buffer@
    }
}

impl PointsWriter {
    pub fn new() -> (w: PointsWriter)
        ensures
            w@ =~= Seq::<u8>::empty(),
    {
        PointsWriter { buffer: Vec::new() }
    }

    /// Append one 16-byte record per point, in order.
    pub fn write_points(&mut self, points: &Vec<Point>) -> (n: usize)
        ensures
            final(self)@ == old(self)@ + points_bytes(points@),
            n == points@.len(),
    {
        let n: usize = points.len();
        let mut k: usize = 0;
        while k < n
            invariant
                n == points@.len(),
                k <= n,
                self@ == old(self)@ + points_bytes(points@.take(k as int)),
            decreases n - k,
        {
            let p: Point = points[k];
            push_le_bytes(&mut self.buffer, i64_to_bits(p.x));
            push_le_bytes(&mut self.buffer, i64_to_bits(p.y));
            proof {
                assert(points@.take(k as int + 1).drop_last() =~= points@.take(k as int));
                assert(points@.take(k as int + 1).last() == points@[k as int]);
                assert(self@ =~= old(self)@ + points_bytes(points@.take(k as int + 1)));
            }
            k += 1;
        }
        proof {
            assert(points@.take(n as int) =~= points@);
        }
        n
    }

    /// The encoded bytes so far.
    pub fn data(&self) -> (r: &Vec<u8>)
        ensures
            r@ == self@,
    {
        &self.buffer
    }
}

/// Decodes cache bytes back into points, one record at a time; fewer than
/// 16 trailing bytes are silently dropped.
pub struct PointsReader {
    pub bytes: Vec<u8>,
    pub pos: usize,
}

impl PointsReader {
    pub fn new(bytes: Vec<u8>) -> (r: PointsReader)
        ensures
            r.bytes@ == bytes@,
            r.pos == 0,
    {
        PointsReader { bytes, pos: 0 }
    }

    /// The next decoded point, or nothing when fewer than 16 bytes remain.
    pub fn next_point(&mut self) -> (r: Option<Point>)
        ensures
            final(self).bytes == old(self).bytes,
            old(self).pos + 16 <= old(self).bytes@.len() ==> r == Some(
                record_at(old(self).bytes@, old(self).pos as int),
            ) && final(self).pos == old(self).pos + 16,
            old(self).pos + 16 > old(self).bytes@.len() ==> r is None && final(self).pos == old(
                self,
            ).pos,
    {
        let len: usize = self.bytes.len();
        if len < 16 || self.pos > len - 16 {
            return None;
        }
        let p0: usize = self.pos;
        let xbits: u64 = (self.bytes[p0] as u64) + (self.bytes[p0 + 1] as u64) * 0x100 + (
        self.bytes[p0 + 2] as u64) * 0x1_0000 + (self.bytes[p0 + 3] as u64) * 0x100_0000 + (
        self.bytes[p0 + 4] as u64) * 0x1_0000_0000 + (self.bytes[p0 + 5] as u64) * 0x100_0000_0000
            + (self.bytes[p0 + 6] as u64) * 0x1_0000_0000_0000 + (self.bytes[p0 + 7] as u64)
            * 0x100_0000_0000_0000;
        let ybits: u64 = (self.bytes[p0 + 8] as u64) + (self.bytes[p0 + 9] as u64) * 0x100 + (
        self.bytes[p0 + 10] as u64) * 0x1_0000 + (self.bytes[p0 + 11] as u64) * 0x100_0000 + (
        self.bytes[p0 + 12] as u64) * 0x1_0000_0000 + (self.bytes[p0 + 13] as u64)
            * 0x100_0000_0000 + (self.bytes[p0 + 14] as u64) * 0x1_0000_0000_0000 + (self.bytes[p0
            + 15] as u64) * 0x100_0000_0000_0000;
        let p = Point { x: bits_to_i64(xbits), y: bits_to_i64(ybits) };
        proof {
            let bs = self.bytes@;
            let sx = bs.subrange(p0 as int, p0 as int + 8);
            let sy = bs.subrange(p0 as int + 8, p0 as int + 16);
            assert(sx[0] == bs[p0 as int] && sx[1] == bs[p0 as int + 1] && sx[2] == bs[
                p0 as int + 2
            ] && sx[3] == bs[p0 as int + 3] && sx[4] == bs[p0 as int + 4] && sx[5] == bs[
                p0 as int + 5
            ] && sx[6] == bs[p0 as int + 6] && sx[7] == bs[p0 as int + 7]);
            assert(sy[0] == bs[p0 as int + 8] && sy[1] == bs[p0 as int + 9] && sy[2] == bs[
                p0 as int + 10
            ] && sy[3] == bs[p0 as int + 11] && sy[4] == bs[p0 as int + 12] && sy[5] == bs[
                p0 as int + 13
            ] && sy[6] == bs[p0 as int + 14] && sy[7] == bs[p0 as int + 15]);
            assert(xbits as int == decode_u64(sx));
            assert(ybits as int == decode_u64(sy));
        }
        self.pos = p0 + 16;
        Some(p)
    }
}

/// Round trip of one coordinate's byte encoding.
proof fn lemma_le_roundtrip(v: int)
    requires
        0 <= v < 0x1_0000_0000_0000_0000,
    ensures
        decode_u64(le_bytes8(v)) == v,
{
    let bs = le_bytes8(v);
    vstd::arithmetic::div_mod::lemma_fundamental_div_mod(v, 0x100);
    vstd::arithmetic::div_mod::lemma_div_denominator(v, 0x100, 0x100);
    vstd::arithmetic::div_mod::lemma_fundamental_div_mod(v / 0x100, 0x100);
    vstd::arithmetic::div_mod::lemma_div_denominator(v, 0x1_0000, 0x100);
    vstd::arithmetic::div_mod::lemma_fundamental_div_mod(v / 0x1_0000, 0x100);
    vstd::arithmetic::div_mod::lemma_div_denominator(v, 0x100_0000, 0x100);
    vstd::arithmetic::div_mod::lemma_fundamental_div_mod(v / 0x100_0000, 0x100);
    vstd::arithmetic::div_mod::lemma_div_denominator(v, 0x1_0000_0000, 0x100);
    vstd::arithmetic::div_mod::lemma_fundamental_div_mod(v / 0x1_0000_0000, 0x100);
    vstd::arithmetic::div_mod::lemma_div_denominator(v, 0x100_0000_0000, 0x100);
    vstd::arithmetic::div_mod::lemma_fundamental_div_mod(v / 0x100_0000_0000, 0x100);
    vstd::arithmetic::div_mod::lemma_div_denominator(v, 0x1_0000_0000_0000, 0x100);
    vstd::arithmetic::div_mod::lemma_fundamental_div_mod(v / 0x1_0000_0000_0000, 0x100);
    assert(v / 0x100_0000_0000_0000 < 0x100) by {
        vstd::arithmetic::div_mod::lemma_div_is_ordered(v, 0xffff_ffff_ffff_ffff, 0x100_0000_0000_0000);
    }
    vstd::arithmetic::div_mod::lemma_small_mod((v / 0x100_0000_0000_0000) as nat, 0x100);
}

/// Codec round trip: decoding the 16-byte record written for a point gives
/// the point back.
pub proof fn lemma_record_roundtrip(p: Point)
    ensures
        record_at(record_bytes(p), 0) == p,
{
    let bx = le_bytes8(u64_bits_of(p.x as int));
    let by = le_bytes8(u64_bits_of(p.y as int));
    assert(record_bytes(p).subrange(0, 8) =~= bx);
    assert(record_bytes(p).subrange(8, 16) =~= by);
    lemma_le_roundtrip(u64_bits_of(p.x as int));
    lemma_le_roundtrip(u64_bits_of(p.y as int));
}

/// Stream round trip: the byte stream written for a point sequence is one
/// 16-byte record per point, and decoding the `i`-th record gives the
/// `i`-th point back, so a cached point set reproduces exactly.
pub proof fn lemma_cache_roundtrip(ps: Seq<Point>, i: int)
    requires
        0 <= i < ps.len(),
    ensures
        points_bytes(ps).len() == 16 * ps.len(),
        record_at(points_bytes(ps), 16 * i) == ps[i],
    decreases ps.len(),
{
    lemma_points_bytes_len(ps);
    lemma_points_bytes_len(ps.drop_last());
    let stream = points_bytes(ps);
    let prefix = points_bytes(ps.drop_last());
    let last = record_bytes(ps.last());
    if i == ps.len() - 1 {
        assert(stream.subrange(16 * i, 16 * i + 8) =~= last.subrange(0, 8));
        assert(stream.subrange(16 * i + 8, 16 * i + 16) =~= last.subrange(8, 16));
        lemma_record_roundtrip(ps.last());
        assert(last.subrange(0, 8) =~= record_bytes(ps.last()).subrange(0, 8));
        assert(last.subrange(8, 16) =~= record_bytes(ps.last()).subrange(8, 16));
    } else {
        assert(stream.subrange(16 * i, 16 * i + 8) =~= prefix.subrange(16 * i, 16 * i + 8));
        assert(stream.subrange(16 * i + 8, 16 * i + 16) =~= prefix.subrange(
            16 * i + 8,
            16 * i + 16,
        ));
        lemma_cache_roundtrip(ps.drop_last(), i);
        assert(ps.drop_last()[i] == ps[i]);
    }
}

/// The stream holds exactly 16 bytes per point.
proof fn lemma_points_bytes_len(ps: Seq<Point>)
    ensures
        points_bytes(ps).len() == 16 * ps.len(),
    decreases ps.len(),
{
    if ps.len() > 0 {
        lemma_points_bytes_len(ps.drop_last());
    }
}

} // verus!
