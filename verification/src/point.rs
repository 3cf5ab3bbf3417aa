//! A plain planar coordinate in fixed-point units.

use vstd::prelude::*;

use crate::fixed::sqrt_floor;
use crate::fixed::COORD_MAX;

verus! {

/// A coordinate pair; no identity beyond its value.
#[derive(Clone, Copy, Debug, PartialEq, Eq, Structural)]
pub struct Point {
    pub x: i64,
    pub y: i64,
}

/// Both coordinates within the magnitude that keeps squared distances
/// representable.
pub open spec fn in_coord_range(p: Point) -> bool {
    &&& -COORD_MAX <= p.x <= COORD_MAX
    &&& -COORD_MAX <= p.y <= COORD_MAX
}

/// Exact squared Euclidean distance.
pub open spec fn sq_dist(a: Point, b: Point) -> int {
    (a.x - b.x) * (a.x - b.x) + (a.y - b.y) * (a.y - b.y)
}

/// Euclidean distance in fixed-point units, rounded down to an integer.
pub open spec fn dist_spec(a: Point, b: Point) -> int {
    sqrt_floor(sq_dist(a, b))
}

} // verus!
