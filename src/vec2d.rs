use vstd::prelude::*;

verus! {

/// A two-dimensional integer vector, used both as a screen position and as a displacement.
#[derive(Debug, Clone, Copy, PartialEq, Eq, Structural, Hash)]
pub struct Vec2D {
    pub x: i64,
    pub y: i64,
}

/// The largest coordinate magnitude for which the geometry routines are free of overflow.
pub const COORD_LIMIT: i64 = 1073741824;

/// Both coordinates lie within `[-COORD_LIMIT, COORD_LIMIT]`.
pub open spec fn in_coord_range(p: Vec2D) -> bool {
    -COORD_LIMIT <= p.x <= COORD_LIMIT && -COORD_LIMIT <= p.y <= COORD_LIMIT
}

/// Every point of the sequence lies within the coordinate range.
pub open spec fn all_in_coord_range(s: Seq<Vec2D>) -> bool {
    forall|i: int| 0 <= i < s.len() ==> #[trigger] in_coord_range(s[i])
}

/// The perpendicular dot product (z component of the cross product) of `a` and `b`.
pub open spec fn cross(a: Vec2D, b: Vec2D) -> int {
    a.x * b.y - a.y * b.x
}

impl Vec2D {
    /// Create a vector from its two coordinates.
    pub fn new(x: i64, y: i64) -> (r: Self)
        ensures
            r.x == x,
            r.y == y,
    {
        Vec2D { x, y }
    }

    /// The component-wise Euclidean remainder by `size`; each coordinate lands in `[0, size)`.
    pub fn rem_euclid(self, size: Vec2D) -> (r: Vec2D)
        requires
            size.x > 0,
            size.y > 0,
        ensures
            r.x == self.x % size.x,
            r.y == self.y % size.y,
            0 <= r.x < size.x,
            0 <= r.y < size.y,
    {
        Vec2D { x: rem_euclid_i64(self.x, size.x), y: rem_euclid_i64(self.y, size.y) }
    }
}

/// The Euclidean remainder of `a` by a positive `m`.
pub fn rem_euclid_i64(a: i64, m: i64) -> (r: i64)
    requires
        m > 0,
    ensures
        r == a % m,
        0 <= r < m,
{
    match a.checked_rem_euclid(m) {
        Some(r) => r,
        None => 0,
    }
}

} // verus!
