use vstd::prelude::*;

verus! {

/// A closed axis-aligned box. The bounds are wider than the coordinates of
/// the world so that sums of positions, offsets and extents never overflow.
#[derive(Debug, Copy, Clone, PartialEq, Eq, Structural)]
pub struct Aabb {
    pub min_x: i128,
    pub min_y: i128,
    pub max_x: i128,
    pub max_y: i128,
}

/// Whether two closed intervals share a point.
pub open spec fn intervals_meet(lo1: int, hi1: int, lo2: int, hi2: int) -> bool {
    lo1 <= hi2 && lo2 <= hi1
}

impl Aabb {
    /// The box centred on `(cx, cy)` that reaches `hw` and `hh` to each side.
    pub open spec fn around(cx: int, cy: int, hw: int, hh: int) -> Aabb {
        Aabb {
            min_x: (cx - hw) as i128,
            min_y: (cy - hh) as i128,
            max_x: (cx + hw) as i128,
            max_y: (cy + hh) as i128,
        }
    }

    pub open spec fn overlaps(&self, other: &Aabb) -> bool {
        &&& intervals_meet(self.min_x as int, self.max_x as int, other.min_x as int, other.max_x as int)
        &&& intervals_meet(self.min_y as int, self.max_y as int, other.min_y as int, other.max_y as int)
    }

    /// Whether the two boxes share a point; boxes that only touch do.
    pub fn intersects(&self, other: &Aabb) -> (r: bool)
        ensures
            r == self.overlaps(other),
    {
        self.min_x <= other.max_x && other.min_x <= self.max_x && self.min_y <= other.max_y
            && other.min_y <= self.max_y
    }
}

} // verus!
