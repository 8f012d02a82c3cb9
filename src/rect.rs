use vstd::prelude::*;
use crate::canvas::{Canvas, CanDraw, Pixel, plot_pixels, pixels_of, points_to_pixels};
use crate::colchar::ColChar;
use crate::vec2d::{Vec2D, in_coord_range};

verus! {

/// The points of the first `k` columns of the rectangle at `pos` of size `size`, each column
/// top to bottom.
pub open spec fn rect_points(pos: Vec2D, size: Vec2D, k: int) -> Seq<Vec2D>
    decreases k,
{
    if k <= 0 {
        Seq::empty()
    } else {
        rect_points(pos, size, k - 1) + Seq::new(
            if size.y > 0 { size.y as nat } else { 0 },
            |j: int| Vec2D { x: (pos.x + k - 1) as i64, y: (pos.y + j) as i64 },
        )
    }
}

/// A filled rectangle given by its top-left corner and its size.
#[derive(Debug, Clone, Copy, PartialEq, Eq)]
pub struct Rect {
    pub pos: Vec2D,
    pub size: Vec2D,
    pub fill_char: ColChar,
}

impl Rect {
    /// Create a rectangle from its top-left corner and size.
    pub fn new(pos: Vec2D, size: Vec2D, fill_char: ColChar) -> (r: Self)
        ensures
            r.pos == pos,
            r.size == size,
            r.fill_char == fill_char,
    {
        Rect { pos, size, fill_char }
    }

    /// Create a rectangle from its top-left and bottom-right corners, both included.
    pub fn new_from_to(top_left: Vec2D, bottom_right: Vec2D, fill_char: ColChar) -> (r: Self)
        requires
            in_coord_range(top_left),
            in_coord_range(bottom_right),
        ensures
            r.pos == top_left,
            r.size.x == bottom_right.x - top_left.x + 1,
            r.size.y == bottom_right.y - top_left.y + 1,
            r.fill_char == fill_char,
    {
        Rect {
            pos: top_left,
            size: Vec2D { x: bottom_right.x - top_left.x + 1, y: bottom_right.y - top_left.y + 1 },
            fill_char,
        }
    }

    /// The bottom-right corner, included in the rectangle.
    pub fn bottom_right(&self) -> (r: Vec2D)
        requires
            in_coord_range(self.pos),
            in_coord_range(self.size),
        ensures
            r.x == self.pos.x + self.size.x - 1,
            r.y == self.pos.y + self.size.y - 1,
    {
        Vec2D { x: self.pos.x + self.size.x - 1, y: self.pos.y + self.size.y - 1 }
    }
}

impl CanDraw for Rect {
    open spec fn drawable(&self) -> bool {
        in_coord_range(self.pos) && in_coord_range(self.size)
    }

    open spec fn pixels(&self) -> Seq<Pixel> {
        pixels_of(rect_points(self.pos, self.size, self.size.x as int), self.fill_char)
    }

    fn draw_to<C: Canvas>(&self, canvas: &mut C) {
        let mut pts: Vec<Vec2D> = Vec::new();
        let mut x: i64 = 0;
        while x < self.size.x
            invariant
                in_coord_range(self.pos),
                in_coord_range(self.size),
                0 <= x <= self.size.x || self.size.x <= 0,
                self.size.x <= 0 ==> x == 0,
                pts@ == rect_points(self.pos, self.size, x as int),
            decreases self.size.x - x,
        {
            let ghost before = pts@;
            let mut y: i64 = 0;
            while y < self.size.y
                invariant
                    in_coord_range(self.pos),
                    in_coord_range(self.size),
                    0 <= x < self.size.x,
                    0 <= y <= self.size.y || self.size.y <= 0,
                    self.size.y <= 0 ==> y == 0,
                    pts@ == before + Seq::new(y as nat, |j: int| Vec2D { x: (self.pos.x + x) as i64, y: (self.pos.y + j) as i64 }),
                decreases self.size.y - y,
            {
                pts.push(Vec2D { x: self.pos.x + x, y: self.pos.y + y });
                y = y + 1;
                assert(pts@ =~= before + Seq::new(y as nat, |j: int| Vec2D { x: (self.pos.x + x) as i64, y: (self.pos.y + j) as i64 }));
            }
            x = x + 1;
            assert(pts@ =~= rect_points(self.pos, self.size, x as int));
        }
        let px = points_to_pixels(&pts, self.fill_char);
        if self.size.x <= 0 {
            assert(pts@ =~= rect_points(self.pos, self.size, self.size.x as int));
        }
        plot_pixels(canvas, &px);
    }
}

} // verus!
