use vstd::prelude::*;
use vstd::seq_lib::lemma_concat_associative;
use crate::canvas::{Canvas, CanDraw, Pixel, plot_pixels, pixels_of, points_to_pixels};
use crate::colchar::ColChar;
use crate::vec2d::Vec2D;

verus! {

/// `a` and `b` are distinct and touch, sideways or diagonally.
pub open spec fn adjacent(a: Vec2D, b: Vec2D) -> bool {
    &&& -1 <= a.x - b.x <= 1
    &&& -1 <= a.y - b.y <= 1
    &&& a != b
}

/// Each point of `s` is adjacent to the next: an 8-connected path without repeats in a row.
pub open spec fn is_connected_path(s: Seq<Vec2D>) -> bool {
    forall|i: int| 0 <= i < s.len() - 1 ==> adjacent(#[trigger] s[i], s[i + 1])
}

/// The points visited by the integer line walk from `(x, y)` towards `(x1, y1)`, with error
/// term `err`, extents `dx >= 0 >= dy`, step directions `sx`, `sy`, and at most `fuel` steps.
pub open spec fn line_walk(
    x: int,
    y: int,
    err: int,
    x1: int,
    y1: int,
    dx: int,
    dy: int,
    sx: int,
    sy: int,
    fuel: nat,
) -> Seq<Vec2D>
    decreases fuel,
{
    let pt = Vec2D { x: x as i64, y: y as i64 };
    let e2 = 2 * err;
    if fuel == 0 || (e2 >= dy && x == x1) {
        seq![pt]
    } else {
        let step_x = e2 >= dy;
        let step_y = e2 <= dx;
        if step_y && y == y1 {
            seq![pt]
        } else {
            let nx = if step_x { x + sx } else { x };
            let ny = if step_y { y + sy } else { y };
            let nerr = err + (if step_x { dy } else { 0 }) + (if step_y { dx } else { 0 });
            let used: nat = if step_x && step_y { 2 } else { 1 };
            let nfuel: nat = if fuel >= used { (fuel - used) as nat } else { 0 };
            seq![pt] + line_walk(nx, ny, nerr, x1, y1, dx, dy, sx, sy, nfuel)
        }
    }
}

/// The absolute value of an integer.
pub open spec fn abs(a: int) -> int {
    if a >= 0 {
        a
    } else {
        -a
    }
}

/// The points of the line from `p0` to `p1` chosen by Bresenham's algorithm.
pub open spec fn line_path(p0: Vec2D, p1: Vec2D) -> Seq<Vec2D> {
    let dx = abs(p1.x - p0.x);
    let dy = -abs(p1.y - p0.y);
    let sx: int = if p0.x < p1.x { 1 } else { -1 };
    let sy: int = if p0.y < p1.y { 1 } else { -1 };
    line_walk(p0.x as int, p0.y as int, dx + dy, p1.x as int, p1.y as int, dx, dy, sx, sy, (dx - dy) as nat)
}

/// Rasterize the line from `pos0` to `pos1`, both ends included, with Bresenham's
/// algorithm. The path is 8-connected whatever the slope or direction.
pub fn line_points(pos0: Vec2D, pos1: Vec2D) -> (r: Vec<Vec2D>)
    ensures
        r@ == line_path(pos0, pos1),
        r@.len() > 0,
        r@[0] == pos0,
        r@.last() == pos1,
        is_connected_path(r@),
{
    let x0 = pos0.x as i128;
    let y0 = pos0.y as i128;
    let x1 = pos1.x as i128;
    let y1 = pos1.y as i128;
    let dx: i128 = if x1 >= x0 { x1 - x0 } else { x0 - x1 };
    let dy: i128 = if y1 >= y0 { y0 - y1 } else { y1 - y0 };
    let sx: i128 = if x0 < x1 { 1 } else { -1 };
    let sy: i128 = if y0 < y1 { 1 } else { -1 };
    let mut err: i128 = dx + dy;
    let mut x: i128 = x0;
    let mut y: i128 = y0;
    let mut points: Vec<Vec2D> = Vec::new();
    let ghost mut kx: int = 0;
    let ghost mut ky: int = 0;
    let ghost total = line_path(pos0, pos1);
    assert(err == dx * (1 + ky) + dy * (1 + kx)) by (nonlinear_arith)
        requires
            kx == 0,
            ky == 0,
            err == dx + dy,
    ;
    loop
        invariant_except_break
            0 <= kx <= dx,
            0 <= ky <= -dy,
            sx == 1 ==> x == x0 + kx,
            sx == -1 ==> x == x0 - kx,
            sy == 1 ==> y == y0 + ky,
            sy == -1 ==> y == y0 - ky,
            err == dx * (1 + ky) + dy * (1 + kx),
            2 * dy <= err <= 2 * dx,
            points@ + line_walk(x as int, y as int, err as int, x1 as int, y1 as int, dx as int, dy as int, sx as int, sy as int, (dx - dy - kx - ky) as nat) == total,
            points@.len() == 0 ==> kx == 0 && ky == 0,
            points@.len() > 0 ==> points@[0] == pos0 && adjacent(points@.last(), Vec2D { x: x as i64, y: y as i64 }),
            is_connected_path(points@),
        invariant
            x0 == pos0.x,
            y0 == pos0.y,
            x1 == pos1.x,
            y1 == pos1.y,
            dx == abs(x1 - x0),
            dy == -abs(y1 - y0),
            sx == (if x0 < x1 { 1int } else { -1int }),
            sy == (if y0 < y1 { 1int } else { -1int }),
            total == line_path(pos0, pos1),
        ensures
            points@ == total,
            points@.len() > 0,
            points@[0] == pos0,
            points@.last() == pos1,
            is_connected_path(points@),
        decreases dx - dy - kx - ky,
    {
        let ghost before = points@;
        let ghost fuel: nat = (dx - dy - kx - ky) as nat;
        let ghost kx0 = kx;
        let ghost err0 = err as int;
        let ghost x_start = x;
        let ghost y_start = y;
        assert(i64::MIN <= x <= i64::MAX && i64::MIN <= y <= i64::MAX);
        let p = Vec2D { x: x as i64, y: y as i64 };
        points.push(p);
        proof {
            assert forall|i: int| 0 <= i < points@.len() - 1 implies adjacent(#[trigger] points@[i], points@[i + 1]) by {
                if i < before.len() - 1 {
                    assert(points@[i] == before[i] && points@[i + 1] == before[i + 1]);
                }
            }
        }
        let e2 = 2 * err;
        if e2 >= dy {
            if x == x1 {
                proof {
                    assert(kx == dx);
                    if ky < -dy {
                        assert(dx * (1 + ky) <= dx * (-dy)) by (nonlinear_arith)
                            requires
                                1 + ky <= -dy,
                                dx >= 0,
                        ;
                        assert(dy * (1 + kx) == dy + dy * dx) by (nonlinear_arith)
                            requires
                                kx == dx,
                        ;
                        assert(dx * (-dy) == -(dy * dx)) by (nonlinear_arith);
                    }
                    assert(ky == -dy);
                    assert(y == y1);
                    assert(line_walk(x as int, y as int, err as int, x1 as int, y1 as int, dx as int, dy as int, sx as int, sy as int, fuel) == seq![p]);
                    assert(points@ =~= before + seq![p]);
                }
                break;
            }
            err = err + dy;
            x = x + sx;
            proof {
                kx = kx + 1;
                assert(dy * (1 + kx) == dy * (1 + (kx - 1)) + dy) by (nonlinear_arith);
            }
        }
        if e2 <= dx {
            if y == y1 {
                proof {
                    assert(ky == -dy);
                    assert(dx * (1 + ky) == dx - dx * dy) by (nonlinear_arith)
                        requires
                            ky == -dy,
                    ;
                    if kx0 <= dx - 1 {
                        assert(dy * (1 + kx0) >= dy * dx) by (nonlinear_arith)
                            requires
                                1 + kx0 <= dx,
                                dy <= 0,
                        ;
                        assert(dx * dy == dy * dx) by (nonlinear_arith);
                    }
                    if kx0 <= dx - 2 {
                        assert(dy * (1 + kx0) >= dy * (dx - 1)) by (nonlinear_arith)
                            requires
                                1 + kx0 <= dx - 1,
                                dy <= 0,
                        ;
                        assert(dy * (dx - 1) == dy * dx - dy) by (nonlinear_arith);
                        assert(dx * dy == dy * dx) by (nonlinear_arith);
                    }
                    assert(kx == dx);
                    assert(x == x1);
                    assert(line_walk(x_start as int, y_start as int, err0, x1 as int, y1 as int, dx as int, dy as int, sx as int, sy as int, fuel) == seq![p]);
                    assert(points@ =~= before + seq![p]);
                }
                break;
            }
            err = err + dx;
            y = y + sy;
            proof {
                ky = ky + 1;
                assert(dx * (1 + ky) == dx * (1 + (ky - 1)) + dx) by (nonlinear_arith);
            }
        }
        proof {
            let nfuel: nat = (dx - dy - kx - ky) as nat;
            let rest = line_walk(x as int, y as int, err as int, x1 as int, y1 as int, dx as int, dy as int, sx as int, sy as int, nfuel);
            assert(fuel > 0);
            assert(line_walk(x_start as int, y_start as int, err0, x1 as int, y1 as int, dx as int, dy as int, sx as int, sy as int, fuel) == seq![p] + rest);
            lemma_concat_associative(before, seq![p], rest);
            assert(before.push(p) =~= before + seq![p]);
        }
    }
    points
}

/// A straight line between two points.
#[derive(Debug, Clone, Copy, PartialEq, Eq)]
pub struct Line {
    pub pos0: Vec2D,
    pub pos1: Vec2D,
    pub fill_char: ColChar,
}

impl Line {
    /// Create a line from `pos0` to `pos1`.
    pub fn new(pos0: Vec2D, pos1: Vec2D, fill_char: ColChar) -> (l: Self)
        ensures
            l.pos0 == pos0,
            l.pos1 == pos1,
            l.fill_char == fill_char,
    {
        Line { pos0, pos1, fill_char }
    }
}

impl CanDraw for Line {
    open spec fn drawable(&self) -> bool {
        true
    }

    open spec fn pixels(&self) -> Seq<Pixel> {
        pixels_of(line_path(self.pos0, self.pos1), self.fill_char)
    }

    fn draw_to<C: Canvas>(&self, canvas: &mut C) {
        let points = line_points(self.pos0, self.pos1);
        let px = points_to_pixels(&points, self.fill_char);
        plot_pixels(canvas, &px);
    }
}

} // verus!
