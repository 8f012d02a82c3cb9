use vstd::prelude::*;
use crate::canvas::{Canvas, CanDraw, Pixel, plot_pixels, pixels_of, points_to_pixels};
use crate::colchar::ColChar;
use crate::interpolate::{interpolate, interpolation};
use crate::line::{line_path, line_points};
use crate::vec2d::{Vec2D, in_coord_range};

verus! {

/// The three corners ordered by ascending `y`; corners with equal `y` keep their order.
pub open spec fn sort_by_y(c: Seq<Vec2D>) -> Seq<Vec2D> {
    let (a, b, d) = (c[0], c[1], c[2]);
    if a.y <= b.y {
        if b.y <= d.y {
            seq![a, b, d]
        } else if a.y <= d.y {
            seq![a, d, b]
        } else {
            seq![d, a, b]
        }
    } else {
        if a.y <= d.y {
            seq![b, a, d]
        } else if b.y <= d.y {
            seq![b, d, a]
        } else {
            seq![d, b, a]
        }
    }
}

/// The half-open run of points `[a, b)` on row `y`; empty when `b <= a`.
pub open spec fn span(a: int, b: int, y: int) -> Seq<Vec2D> {
    Seq::new(if b > a { (b - a) as nat } else { 0 }, |k: int| Vec2D { x: (a + k) as i64, y: y as i64 })
}

/// The runs of the first `k` rows, starting at row `y0`, between the `left` and `right` tables.
pub open spec fn spans(left: Seq<i64>, right: Seq<i64>, y0: int, k: int) -> Seq<Vec2D>
    decreases k,
{
    if k <= 0 {
        Seq::empty()
    } else {
        spans(left, right, y0, k - 1) + span(left[k - 1] as int, right[k - 1] as int, y0 + k - 1)
    }
}

/// The x tables of a triangle whose corners are sorted by `y`: the long edge, and the two
/// short edges joined; the one that is smaller at the middle row is the left side.
pub open spec fn edge_tables(s: Seq<Vec2D>) -> (Seq<i64>, Seq<i64>) {
    let x01 = interpolation(s[0].y, s[0].x, s[1].y, s[1].x);
    let x12 = interpolation(s[1].y, s[1].x, s[2].y, s[2].x);
    let x02 = interpolation(s[0].y, s[0].x, s[2].y, s[2].x);
    let x012 = x01.drop_last() + x12;
    let m = x012.len() / 2;
    if x02[m as int] < x012[m as int] {
        (x02, x012)
    } else {
        (x012, x02)
    }
}

/// The interior runs of a triangle: one half-open run per row from the lowest `y` up to,
/// not including, the highest.
pub open spec fn triangle_fill(corners: Seq<Vec2D>) -> Seq<Vec2D> {
    let s = sort_by_y(corners);
    let (left, right) = edge_tables(s);
    spans(left, right, s[0].y as int, s[2].y - s[0].y)
}

/// Every point a triangle plots: its interior runs, then its three edges.
pub open spec fn triangle_points(corners: Seq<Vec2D>) -> Seq<Vec2D> {
    let s = sort_by_y(corners);
    triangle_fill(corners) + line_path(s[0], s[1]) + line_path(s[1], s[2]) + line_path(s[2], s[0])
}

fn sort_corners(c: [Vec2D; 3]) -> (r: [Vec2D; 3])
    ensures
        r@ == sort_by_y(c@),
{
    let (a, b, d) = (c[0], c[1], c[2]);
    let r = if a.y <= b.y {
        if b.y <= d.y {
            [a, b, d]
        } else if a.y <= d.y {
            [a, d, b]
        } else {
            [d, a, b]
        }
    } else {
        if a.y <= d.y {
            [b, a, d]
        } else if b.y <= d.y {
            [b, d, a]
        } else {
            [d, b, a]
        }
    };
    assert(r@ =~= sort_by_y(c@));
    r
}

proof fn lemma_interpolation_len(i0: i64, d0: i64, i1: i64, d1: i64)
    requires
        i0 <= i1,
    ensures
        interpolation(i0, d0, i1, d1).len() == i1 - i0 + 1,
{
}

/// The interior runs of a triangle.
pub fn fill_points(corners: [Vec2D; 3]) -> (r: Vec<Vec2D>)
    requires
        forall|i: int| 0 <= i < 3 ==> in_coord_range(#[trigger] corners@[i]),
    ensures
        r@ == triangle_fill(corners@),
{
    let s = sort_corners(corners);
    assert(in_coord_range(s@[0]) && in_coord_range(s@[1]) && in_coord_range(s@[2]));
    let (x0, y0) = (s[0].x, s[0].y);
    let (x1, y1) = (s[1].x, s[1].y);
    let (x2, y2) = (s[2].x, s[2].y);
    let mut x012 = interpolate(y0, x0, y1, x1);
    let mut x12 = interpolate(y1, x1, y2, x2);
    let x02 = interpolate(y0, x0, y2, x2);
    proof {
        lemma_interpolation_len(y0, x0, y1, x1);
        lemma_interpolation_len(y1, x1, y2, x2);
        lemma_interpolation_len(y0, x0, y2, x2);
    }
    x012.pop();
    x012.append(&mut x12);
    let m = x012.len() / 2;
    let ghost tables = edge_tables(s@);
    let (left, right) = if x02[m] < x012[m] {
        (x02, x012)
    } else {
        (x012, x02)
    };
    assert(left@ == tables.0 && right@ == tables.1);
    let h: i64 = y2 - y0;
    let mut pts: Vec<Vec2D> = Vec::new();
    let mut i: i64 = 0;
    while i < h
        invariant
            0 <= i <= h,
            h == y2 - y0,
            left@.len() == h + 1,
            right@.len() == h + 1,
            in_coord_range(s@[0]),
            in_coord_range(s@[2]),
            pts@ == spans(left@, right@, y0 as int, i as int),
        decreases h - i,
    {
        let y = y0 + i;
        let a = left[i as usize];
        let b = right[i as usize];
        let ghost before = pts@;
        let mut x = a;
        while x < b
            invariant
                a <= x || b <= a,
                x <= b || b <= a,
                b <= a ==> x == a,
                pts@ == before + span(a as int, x as int, y as int),
            decreases b - x,
        {
            pts.push(Vec2D { x, y });
            x = x + 1;
            assert(pts@ =~= before + span(a as int, x as int, y as int));
        }
        assert(span(a as int, x as int, y as int) =~= span(a as int, b as int, y as int));
        i = i + 1;
    }
    pts
}

/// A filled triangle.
#[derive(Debug, Clone, Copy, PartialEq, Eq)]
pub struct Triangle {
    pub corners: [Vec2D; 3],
    pub fill_char: ColChar,
}

impl Triangle {
    /// Create a triangle from three corners.
    pub fn new(pos0: Vec2D, pos1: Vec2D, pos2: Vec2D, fill_char: ColChar) -> (t: Self)
        ensures
            t.corners@ == seq![pos0, pos1, pos2],
            t.fill_char == fill_char,
    {
        let t = Triangle { corners: [pos0, pos1, pos2], fill_char };
        assert(t.corners@ =~= seq![pos0, pos1, pos2]);
        t
    }

    /// Create a triangle from an array of corners.
    pub fn with_array(corners: [Vec2D; 3], fill_char: ColChar) -> (t: Self)
        ensures
            t.corners == corners,
            t.fill_char == fill_char,
    {
        Triangle { corners, fill_char }
    }

    /// Every point the triangle plots, in order.
    pub fn points(&self) -> (r: Vec<Vec2D>)
        requires
            forall|i: int| 0 <= i < 3 ==> in_coord_range(#[trigger] self.corners@[i]),
        ensures
            r@ == triangle_points(self.corners@),
    {
        let s = sort_corners(self.corners);
        let mut pts = fill_points(self.corners);
        let mut e01 = line_points(s[0], s[1]);
        let mut e12 = line_points(s[1], s[2]);
        let mut e20 = line_points(s[2], s[0]);
        pts.append(&mut e01);
        pts.append(&mut e12);
        pts.append(&mut e20);
        pts
    }
}

impl CanDraw for Triangle {
    open spec fn drawable(&self) -> bool {
        forall|i: int| 0 <= i < 3 ==> in_coord_range(#[trigger] self.corners@[i])
    }

    open spec fn pixels(&self) -> Seq<Pixel> {
        pixels_of(triangle_points(self.corners@), self.fill_char)
    }

    fn draw_to<C: Canvas>(&self, canvas: &mut C) {
        let pts = self.points();
        let px = points_to_pixels(&pts, self.fill_char);
        plot_pixels(canvas, &px);
    }
}

} // verus!
