use vstd::prelude::*;
use crate::vec2d::Vec2D;

verus! {

/// How a canvas treats a position outside its bounds.
#[derive(Debug, Clone, Copy, PartialEq, Eq, Structural, Hash)]
pub enum WrappingMode {
    /// Reduce the position modulo the size, so it reappears on the opposite edge.
    Wrap,
    /// Drop positions outside the bounds.
    Ignore,
    /// Positions outside the bounds are a contract violation.
    Panic,
}

/// `pos` lies in `[0, size.x) x [0, size.y)`.
pub open spec fn in_bounds(pos: Vec2D, size: Vec2D) -> bool {
    0 <= pos.x < size.x && 0 <= pos.y < size.y
}

/// The position that `mode` makes of `pos` against `size`, or `None` when it is dropped.
pub open spec fn handled(mode: WrappingMode, pos: Vec2D, size: Vec2D) -> Option<Vec2D> {
    match mode {
        WrappingMode::Wrap => Some(Vec2D { x: (pos.x % size.x) as i64, y: (pos.y % size.y) as i64 }),
        _ => if in_bounds(pos, size) {
            Some(pos)
        } else {
            None
        },
    }
}

/// `mode` can take `pos` against `size` without a contract violation.
pub open spec fn admits(mode: WrappingMode, pos: Vec2D, size: Vec2D) -> bool {
    mode == WrappingMode::Panic ==> in_bounds(pos, size)
}

impl WrappingMode {
    /// Apply the mode to `pos` against `bounds`. Under `Panic`, `pos` must be in bounds.
    pub fn handle_bounds(&self, pos: Vec2D, bounds: Vec2D) -> (r: Option<Vec2D>)
        requires
            bounds.x > 0,
            bounds.y > 0,
            admits(*self, pos, bounds),
        ensures
            r == handled(*self, pos, bounds),
    {
        let in_bounds_pos = pos.rem_euclid(bounds);
        match self {
            WrappingMode::Wrap => Some(in_bounds_pos),
            _ => {
                if pos == in_bounds_pos {
                    Some(pos)
                } else {
                    proof {
                        assert(!in_bounds(pos, bounds)) by {
                            if in_bounds(pos, bounds) {
                                vstd::arithmetic::div_mod::lemma_small_mod(pos.x as nat, bounds.x as nat);
                                vstd::arithmetic::div_mod::lemma_small_mod(pos.y as nat, bounds.y as nat);
                            }
                        }
                    }
                    None
                }
            },
        }
    }
}

/// Wrapping always yields a position inside the bounds, and wrapping that position again
/// leaves it unchanged.
pub proof fn lemma_wrap_in_bounds_idempotent(pos: Vec2D, size: Vec2D)
    requires
        size.x > 0,
        size.y > 0,
    ensures
        handled(WrappingMode::Wrap, pos, size) matches Some(w) && in_bounds(w, size) && handled(
            WrappingMode::Wrap,
            w,
            size,
        ) == Some(w),
{
    let w = Vec2D { x: (pos.x % size.x) as i64, y: (pos.y % size.y) as i64 };
    vstd::arithmetic::div_mod::lemma_small_mod(w.x as nat, size.x as nat);
    vstd::arithmetic::div_mod::lemma_small_mod(w.y as nat, size.y as nat);
}

/// `Ignore` returns the position unchanged exactly when it is in bounds, and drops it
/// otherwise; `Panic` agrees with `Ignore` on every position it admits.
pub proof fn lemma_ignore_and_panic(pos: Vec2D, size: Vec2D)
    requires
        size.x > 0,
        size.y > 0,
    ensures
        handled(WrappingMode::Ignore, pos, size) == (if in_bounds(pos, size) {
            Some(pos)
        } else {
            None
        }),
        admits(WrappingMode::Panic, pos, size) ==> handled(WrappingMode::Panic, pos, size)
            == handled(WrappingMode::Ignore, pos, size) && handled(WrappingMode::Panic, pos, size)
            == Some(pos),
        !in_bounds(pos, size) ==> !admits(WrappingMode::Panic, pos, size),
{
}

} // verus!
