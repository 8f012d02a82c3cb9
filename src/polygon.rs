use vstd::prelude::*;
use vstd::seq_lib::lemma_concat_associative;
use crate::canvas::{Canvas, CanDraw, Pixel, plot_pixels, pixels_of, points_to_pixels};
use crate::colchar::ColChar;
use crate::triangle::{Triangle, triangle_points};
use crate::vec2d::{Vec2D, in_coord_range, all_in_coord_range, cross};
use crate::view3d::{is_clockwise, lemma_clockwise_is_area_sign};

verus! {

/// The perpendicular dot product of `a - b` and `c - d`.
pub open spec fn cross_diff(a: Vec2D, b: Vec2D, c: Vec2D, d: Vec2D) -> int {
    (a.x - b.x) * (c.y - d.y) - (a.y - b.y) * (c.x - d.x)
}

/// `x` with its sign flipped for a clockwise (`ccw == false`) orientation.
pub open spec fn oriented(ccw: bool, x: int) -> bool {
    if ccw {
        x > 0
    } else {
        x < 0
    }
}

/// `x` is zero or has the sign of the orientation `ccw`.
pub open spec fn weakly_oriented(ccw: bool, x: int) -> bool {
    if ccw {
        x >= 0
    } else {
        x <= 0
    }
}

/// The polygon's doubled signed area is positive: counter-clockwise in a y-up frame.
pub open spec fn is_ccw(p: Seq<Vec2D>) -> bool {
    shoelace(p) > 0
}

/// The angle at `v`, between `prev` and `next`, is convex for a polygon of orientation `ccw`.
pub open spec fn is_convex(prev: Vec2D, v: Vec2D, next: Vec2D, ccw: bool) -> bool {
    oriented(ccw, cross_diff(v, prev, next, prev))
}

/// `q` lies inside the triangle `(a, b, c)` of orientation `ccw`, or on its border.
pub open spec fn in_triangle(a: Vec2D, b: Vec2D, c: Vec2D, q: Vec2D, ccw: bool) -> bool {
    weakly_oriented(ccw, cross_diff(b, a, q, a)) && weakly_oriented(ccw, cross_diff(c, b, q, b))
        && weakly_oriented(ccw, cross_diff(a, c, q, c))
}

/// The index before `i` in a cyclic sequence of length `n`.
pub open spec fn prev_index(i: int, n: int) -> int {
    (i + n - 1) % n
}

/// The index after `i` in a cyclic sequence of length `n`.
pub open spec fn next_index(i: int, n: int) -> int {
    (i + 1) % n
}

/// Vertex `i` of `poly` is an ear: its angle is convex and the triangle it forms with its
/// neighbours holds no other vertex, inside or on its border.
pub open spec fn is_ear_at(poly: Seq<Vec2D>, i: int, ccw: bool) -> bool {
    let n = poly.len() as int;
    let pi = prev_index(i, n);
    let ni = next_index(i, n);
    is_convex(poly[pi], poly[i], poly[ni], ccw) && forall|j: int|
        0 <= j < n && j != pi && j != i && j != ni ==> !in_triangle(poly[pi], poly[i], poly[ni], #[trigger] poly[j], ccw)
}

/// The first index from `i` on whose vertex is an ear, or 0 when there is none.
pub open spec fn first_ear(poly: Seq<Vec2D>, ccw: bool, i: int) -> int
    decreases poly.len() - i,
{
    if i < 0 || i >= poly.len() {
        0
    } else if is_ear_at(poly, i, ccw) {
        i
    } else {
        first_ear(poly, ccw, i + 1)
    }
}

proof fn lemma_first_ear_range(poly: Seq<Vec2D>, ccw: bool, i: int)
    requires
        poly.len() > 0,
    ensures
        0 <= first_ear(poly, ccw, i) < poly.len(),
        first_ear(poly, ccw, i) != 0 ==> is_ear_at(poly, first_ear(poly, ccw, i), ccw),
    decreases poly.len() - i,
{
    if 0 <= i < poly.len() && !is_ear_at(poly, i, ccw) {
        lemma_first_ear_range(poly, ccw, i + 1);
    }
}

/// The triangle cut off at vertex `e`: its predecessor, itself, its successor.
pub open spec fn ear_triangle(poly: Seq<Vec2D>, e: int) -> Seq<Vec2D> {
    let n = poly.len() as int;
    seq![poly[prev_index(e, n)], poly[e], poly[next_index(e, n)]]
}

/// Ear clipping for orientation `ccw`: while more than three vertices remain, cut off the
/// first ear (or vertex 0 when none is an ear); the last three vertices form the final
/// triangle.
pub open spec fn ear_clip(poly: Seq<Vec2D>, ccw: bool) -> Seq<Seq<Vec2D>>
    decreases poly.len(),
{
    if poly.len() < 3 {
        Seq::empty()
    } else if poly.len() == 3 {
        seq![poly]
    } else {
        let e = first_ear(poly, ccw, 0);
        if 0 <= e < poly.len() {
            seq![ear_triangle(poly, e)] + ear_clip(poly.remove(e), ccw)
        } else {
            Seq::empty()
        }
    }
}

/// The triangles of a polygon: ear clipping with the polygon's own orientation.
pub open spec fn triangulation(poly: Seq<Vec2D>) -> Seq<Seq<Vec2D>> {
    ear_clip(poly, is_ccw(poly))
}

fn cross_diff_exec(a: Vec2D, b: Vec2D, c: Vec2D, d: Vec2D) -> (r: i128)
    requires
        in_coord_range(a),
        in_coord_range(b),
        in_coord_range(c),
        in_coord_range(d),
    ensures
        r == cross_diff(a, b, c, d),
{
    let ux = a.x as i128 - b.x as i128;
    let uy = a.y as i128 - b.y as i128;
    let vx = c.x as i128 - d.x as i128;
    let vy = c.y as i128 - d.y as i128;
    assert(-0x1_0000_0000_0000_0000 <= ux * vy <= 0x1_0000_0000_0000_0000) by (nonlinear_arith)
        requires
            -0x8000_0000 <= ux <= 0x8000_0000,
            -0x8000_0000 <= vy <= 0x8000_0000,
    ;
    assert(-0x1_0000_0000_0000_0000 <= uy * vx <= 0x1_0000_0000_0000_0000) by (nonlinear_arith)
        requires
            -0x8000_0000 <= uy <= 0x8000_0000,
            -0x8000_0000 <= vx <= 0x8000_0000,
    ;
    ux * vy - uy * vx
}

fn cyc_next(i: usize, n: usize) -> (r: usize)
    requires
        i < n,
    ensures
        r == next_index(i as int, n as int),
        r < n,
{
    if i + 1 < n {
        proof {
            vstd::arithmetic::div_mod::lemma_small_mod((i + 1) as nat, n as nat);
        }
        i + 1
    } else {
        proof {
            vstd::arithmetic::div_mod::lemma_mod_self_0(n as int);
        }
        0
    }
}

fn cyc_prev(i: usize, n: usize) -> (r: usize)
    requires
        i < n,
    ensures
        r == prev_index(i as int, n as int),
        r < n,
{
    if i == 0 {
        proof {
            vstd::arithmetic::div_mod::lemma_small_mod((n - 1) as nat, n as nat);
        }
        n - 1
    } else {
        proof {
            vstd::arithmetic::div_mod::lemma_mod_add_multiples_vanish(i - 1, n as int);
            vstd::arithmetic::div_mod::lemma_small_mod((i - 1) as nat, n as nat);
        }
        i - 1
    }
}

fn weakly_oriented_exec(ccw: bool, x: i128) -> (r: bool)
    ensures
        r == weakly_oriented(ccw, x as int),
{
    if ccw {
        x >= 0
    } else {
        x <= 0
    }
}

fn is_ear(polygon: &Vec<Vec2D>, i: usize, ccw: bool) -> (r: bool)
    requires
        all_in_coord_range(polygon@),
        i < polygon@.len(),
    ensures
        r == is_ear_at(polygon@, i as int, ccw),
{
    let n = polygon.len();
    let pi = cyc_prev(i, n);
    let ni = cyc_next(i, n);
    let prev = polygon[pi];
    let v = polygon[i];
    let next = polygon[ni];
    assert(in_coord_range(prev) && in_coord_range(v) && in_coord_range(next));
    let turn = cross_diff_exec(v, prev, next, prev);
    let convex = if ccw { turn > 0 } else { turn < 0 };
    if !convex {
        return false;
    }
    let mut j: usize = 0;
    while j < n
        invariant
            n == polygon@.len(),
            j <= n,
            pi == prev_index(i as int, n as int),
            ni == next_index(i as int, n as int),
            prev == polygon@[pi as int],
            v == polygon@[i as int],
            next == polygon@[ni as int],
            i < n,
            all_in_coord_range(polygon@),
            in_coord_range(prev) && in_coord_range(v) && in_coord_range(next),
            forall|k: int| 0 <= k < j && k != pi && k != i && k != ni ==> !in_triangle(prev, v, next, #[trigger] polygon@[k], ccw),
        decreases n - j,
    {
        if j != pi && j != i && j != ni {
            let q = polygon[j];
            assert(in_coord_range(q));
            if weakly_oriented_exec(ccw, cross_diff_exec(v, prev, q, prev))
                && weakly_oriented_exec(ccw, cross_diff_exec(next, v, q, v))
                && weakly_oriented_exec(ccw, cross_diff_exec(prev, next, q, next)) {
                return false;
            }
        }
        j = j + 1;
    }
    true
}

/// Split a polygon into triangles by ear clipping. Fewer than three vertices give none.
pub fn triangulate(vertices: &Vec<Vec2D>) -> (r: Vec<[Vec2D; 3]>)
    requires
        all_in_coord_range(vertices@),
    ensures
        r@.len() == triangulation(vertices@).len(),
        forall|k: int| 0 <= k < r@.len() ==> (#[trigger] r@[k])@ == triangulation(vertices@)[k],
{
    let mut triangles: Vec<[Vec2D; 3]> = Vec::new();
    let n = vertices.len();
    if n < 3 {
        return triangles;
    }
    let ccw = !is_clockwise(vertices);
    proof {
        lemma_clockwise_is_area_sign(vertices@);
    }
    let mut remaining = vertices.clone();
    assert(remaining@ =~= vertices@);
    let ghost done: Seq<Seq<Vec2D>> = Seq::empty();
    while remaining.len() > 3
        invariant
            remaining@.len() >= 3,
            all_in_coord_range(remaining@),
            triangles@.len() == done.len(),
            forall|k: int| 0 <= k < done.len() ==> (#[trigger] triangles@[k])@ == done[k],
            ccw == is_ccw(vertices@),
            done + ear_clip(remaining@, ccw) == triangulation(vertices@),
        decreases remaining@.len(),
    {
        let len = remaining.len();
        let mut ear_index: usize = 0;
        let mut i: usize = 0;
        while i < len
            invariant_except_break
                ear_index == 0,
                first_ear(remaining@, ccw, 0) == first_ear(remaining@, ccw, i as int),
            invariant
                len == remaining@.len(),
                len > 3,
                i <= len,
                all_in_coord_range(remaining@),
            ensures
                ear_index == first_ear(remaining@, ccw, 0),
                ear_index < len,
            decreases len - i,
        {
            if is_ear(&remaining, i, ccw) {
                ear_index = i;
                break;
            }
            i = i + 1;
        }
        let ear_vertex = remaining[ear_index];
        let prev_vertex = remaining[cyc_prev(ear_index, len)];
        let next_vertex = remaining[cyc_next(ear_index, len)];
        let tri = [prev_vertex, ear_vertex, next_vertex];
        let ghost old_remaining = remaining@;
        assert(tri@ =~= ear_triangle(old_remaining, ear_index as int));
        triangles.push(tri);
        remaining.remove(ear_index);
        proof {
            assert(all_in_coord_range(remaining@)) by {
                assert forall|k: int| 0 <= k < remaining@.len() implies #[trigger] in_coord_range(remaining@[k]) by {
                    if k < ear_index {
                        assert(remaining@[k] == old_remaining[k]);
                    } else {
                        assert(remaining@[k] == old_remaining[k + 1]);
                    }
                }
            }
            lemma_first_ear_range(old_remaining, ccw, 0);
            let t = ear_triangle(old_remaining, ear_index as int);
            assert(ear_clip(old_remaining, ccw) == seq![t] + ear_clip(remaining@, ccw));
            lemma_concat_associative(done, seq![t], ear_clip(remaining@, ccw));
            done = done.push(t);
            assert(done.push(t) =~= done + seq![t]) by {
                assert(done == done);
            }
        }
    }
    let last = [remaining[0], remaining[1], remaining[2]];
    assert(last@ =~= remaining@);
    triangles.push(last);
    proof {
        assert(ear_clip(remaining@, ccw) == seq![remaining@]);
        assert(done.push(remaining@) =~= done + seq![remaining@]);
        done = done.push(remaining@);
    }
    triangles
}

/// The sum of `cross(s[i], s[i + 1])` over consecutive points of the open chain `s`.
pub open spec fn chain_sum(s: Seq<Vec2D>) -> int
    decreases s.len(),
{
    if s.len() < 2 {
        0
    } else {
        chain_sum(s.drop_last()) + cross(s[s.len() - 2], s[s.len() - 1])
    }
}

/// Twice the signed area of the closed polygon `s` (shoelace formula).
pub open spec fn shoelace(s: Seq<Vec2D>) -> int {
    if s.len() == 0 {
        0
    } else {
        chain_sum(s) + cross(s.last(), s[0])
    }
}

/// Twice the signed area of the triangle `t`.
pub open spec fn triangle_area2(t: Seq<Vec2D>) -> int {
    cross(t[0], t[1]) + cross(t[1], t[2]) + cross(t[2], t[0])
}

/// The sum of twice the signed areas of the triangles `ts`.
pub open spec fn total_area2(ts: Seq<Seq<Vec2D>>) -> int
    decreases ts.len(),
{
    if ts.len() == 0 {
        0
    } else {
        triangle_area2(ts[0]) + total_area2(ts.drop_first())
    }
}

pub(crate) proof fn lemma_chain_concat(a: Seq<Vec2D>, b: Seq<Vec2D>)
    requires
        a.len() >= 1,
        b.len() >= 1,
    ensures
        chain_sum(a + b) == chain_sum(a) + cross(a.last(), b[0]) + chain_sum(b),
    decreases b.len(),
{
    if b.len() == 1 {
        assert((a + b).drop_last() =~= a);
    } else {
        lemma_chain_concat(a, b.drop_last());
        assert((a + b).drop_last() =~= a + b.drop_last());
    }
}

pub(crate) proof fn lemma_cross_antisym(a: Vec2D, b: Vec2D)
    ensures
        cross(b, a) == -cross(a, b),
{
    assert(a.x * b.y == b.y * a.x && a.y * b.x == b.x * a.y) by (nonlinear_arith);
}

proof fn lemma_remove_ear_area(p: Seq<Vec2D>, e: int)
    requires
        p.len() >= 4,
        0 <= e < p.len(),
    ensures
        shoelace(p) == triangle_area2(ear_triangle(p, e)) + shoelace(p.remove(e)),
{
    let n = p.len() as int;
    let x = p[e];
    let t = ear_triangle(p, e);
    if e == 0 {
        vstd::arithmetic::div_mod::lemma_small_mod((n - 1) as nat, n as nat);
        vstd::arithmetic::div_mod::lemma_small_mod(1, n as nat);
        let b = p.skip(1);
        assert(p =~= seq![x] + b);
        assert(p.remove(0) =~= b);
        lemma_chain_concat(seq![x], b);
        assert(chain_sum(seq![x]) == 0);
        lemma_cross_antisym(b.last(), b[0]);
        assert(t == seq![b.last(), x, b[0]]);
    } else if e == n - 1 {
        vstd::arithmetic::div_mod::lemma_small_mod((e - 1) as nat, n as nat);
        vstd::arithmetic::div_mod::lemma_mod_add_multiples_vanish(e - 1, n);
        vstd::arithmetic::div_mod::lemma_mod_self_0(n);
        let a = p.take(n - 1);
        assert(p =~= a + seq![x]);
        assert(p.remove(e) =~= a);
        lemma_chain_concat(a, seq![x]);
        assert(chain_sum(seq![x]) == 0);
        lemma_cross_antisym(a.last(), a[0]);
        assert(t == seq![a.last(), x, a[0]]);
    } else {
        vstd::arithmetic::div_mod::lemma_small_mod((e - 1) as nat, n as nat);
        vstd::arithmetic::div_mod::lemma_mod_add_multiples_vanish(e - 1, n);
        vstd::arithmetic::div_mod::lemma_small_mod((e + 1) as nat, n as nat);
        let a = p.take(e);
        let b = p.skip(e + 1);
        assert(p =~= a + (seq![x] + b));
        assert(p.remove(e) =~= a + b);
        lemma_chain_concat(a, seq![x] + b);
        lemma_chain_concat(seq![x], b);
        lemma_chain_concat(a, b);
        assert(chain_sum(seq![x]) == 0);
        assert((seq![x] + b)[0] == x);
        assert((a + b).last() == b.last() && p.last() == b.last());
        assert((a + b)[0] == a[0] && p[0] == a[0]);
        lemma_cross_antisym(a.last(), b[0]);
        assert(t == seq![a.last(), x, b[0]]);
    }
}

proof fn lemma_ear_clip(p: Seq<Vec2D>, ccw: bool)
    requires
        p.len() >= 3,
    ensures
        ear_clip(p, ccw).len() == p.len() - 2,
        total_area2(ear_clip(p, ccw)) == shoelace(p),
        p.len() == 3 ==> ear_clip(p, ccw) == seq![p],
        forall|k: int, j: int| 0 <= k < ear_clip(p, ccw).len() && 0 <= j < 3 ==> p.contains(#[trigger] ear_clip(p, ccw)[k][j]),
        forall|k: int| 0 <= k < ear_clip(p, ccw).len() ==> (#[trigger] ear_clip(p, ccw)[k]).len() == 3,
    decreases p.len(),
{
    if p.len() == 3 {
        let d = p.drop_last();
        assert(d.len() == 2 && d[0] == p[0] && d[1] == p[1]);
        assert(chain_sum(d.drop_last()) == 0);
        assert(chain_sum(d) == cross(p[0], p[1]));
        assert(chain_sum(p) == cross(p[0], p[1]) + cross(p[1], p[2]));
        assert(total_area2(seq![p]) == triangle_area2(p) + total_area2(seq![p].drop_first()));
        assert(seq![p].drop_first() =~= Seq::<Seq<Vec2D>>::empty());
        assert forall|k: int, j: int| 0 <= k < ear_clip(p, ccw).len() && 0 <= j < 3 implies p.contains(#[trigger] ear_clip(p, ccw)[k][j]) by {
            assert(ear_clip(p, ccw)[k][j] == p[j]);
        }
    } else {
        let e = first_ear(p, ccw, 0);
        lemma_first_ear_range(p, ccw, 0);
        let rest = p.remove(e);
        lemma_ear_clip(rest, ccw);
        lemma_remove_ear_area(p, e);
        let t = ear_triangle(p, e);
        let ts = ear_clip(p, ccw);
        assert(ts == seq![t] + ear_clip(rest, ccw));
        assert(ts.drop_first() =~= ear_clip(rest, ccw));
        let n = p.len() as int;
        assert(0 <= prev_index(e, n) < n && 0 <= next_index(e, n) < n) by {
            vstd::arithmetic::div_mod::lemma_mod_bound(e + n - 1, n);
            vstd::arithmetic::div_mod::lemma_mod_bound(e + 1, n);
        }
        assert forall|k: int, j: int| 0 <= k < ts.len() && 0 <= j < 3 implies p.contains(#[trigger] ts[k][j]) by {
            if k == 0 {
                assert(t[j] == p[prev_index(e, n)] || t[j] == p[e] || t[j] == p[next_index(e, n)]);
            } else {
                assert(ts[k] == ear_clip(rest, ccw)[k - 1]);
                assert(rest.contains(ts[k][j]));
                let i = choose|i: int| 0 <= i < rest.len() && rest[i] == ts[k][j];
                if i < e {
                    assert(rest[i] == p[i]);
                } else {
                    assert(rest[i] == p[i + 1]);
                }
            }
        }
        assert forall|k: int| 0 <= k < ts.len() implies (#[trigger] ts[k]).len() == 3 by {
            if k > 0 {
                assert(ts[k] == ear_clip(rest, ccw)[k - 1]);
            }
        }
    }
}

/// The sum of twice the absolute areas of the triangles `ts`.
pub open spec fn total_abs_area2(ts: Seq<Seq<Vec2D>>) -> int
    decreases ts.len(),
{
    if ts.len() == 0 {
        0
    } else {
        let a = triangle_area2(ts[0]);
        (if a >= 0 { a } else { -a }) + total_abs_area2(ts.drop_first())
    }
}

/// Every clipping step of `p` found a true ear (never falling back to vertex 0 without one),
/// and the last triangle is oriented like `ccw` or flat.
pub open spec fn clipped_by_ears(p: Seq<Vec2D>, ccw: bool) -> bool
    decreases p.len(),
{
    if p.len() < 3 {
        true
    } else if p.len() == 3 {
        weakly_oriented(ccw, triangle_area2(p))
    } else {
        let e = first_ear(p, ccw, 0);
        if 0 <= e < p.len() {
            is_ear_at(p, e, ccw) && clipped_by_ears(p.remove(e), ccw)
        } else {
            false
        }
    }
}

proof fn lemma_ear_triangle_area(p: Seq<Vec2D>, e: int)
    requires
        p.len() >= 3,
        0 <= e < p.len(),
    ensures
        ({
            let n = p.len() as int;
            triangle_area2(ear_triangle(p, e)) == cross_diff(p[e], p[prev_index(e, n)], p[next_index(e, n)], p[prev_index(e, n)])
        }),
{
    let n = p.len() as int;
    let a = p[prev_index(e, n)];
    let b = p[e];
    let c = p[next_index(e, n)];
    assert(cross(a, b) + cross(b, c) + cross(c, a) == cross_diff(b, a, c, a)) by (nonlinear_arith);
}

proof fn lemma_ears_oriented(p: Seq<Vec2D>, ccw: bool)
    requires
        p.len() >= 3,
        clipped_by_ears(p, ccw),
    ensures
        forall|k: int| 0 <= k < ear_clip(p, ccw).len() ==> weakly_oriented(ccw, #[trigger] triangle_area2(ear_clip(p, ccw)[k])),
    decreases p.len(),
{
    if p.len() > 3 {
        let e = first_ear(p, ccw, 0);
        lemma_first_ear_range(p, ccw, 0);
        let rest = p.remove(e);
        lemma_ears_oriented(rest, ccw);
        lemma_ear_triangle_area(p, e);
        let ts = ear_clip(p, ccw);
        assert forall|k: int| 0 <= k < ts.len() implies weakly_oriented(ccw, #[trigger] triangle_area2(ts[k])) by {
            if k > 0 {
                assert(ts[k] == ear_clip(rest, ccw)[k - 1]);
            }
        }
    } else {
        assert(ear_clip(p, ccw)[0] == p);
    }
}

proof fn lemma_abs_sum(ts: Seq<Seq<Vec2D>>, ccw: bool)
    requires
        forall|k: int| 0 <= k < ts.len() ==> weakly_oriented(ccw, #[trigger] triangle_area2(ts[k])),
    ensures
        total_abs_area2(ts) == (if ccw { total_area2(ts) } else { -total_area2(ts) }),
    decreases ts.len(),
{
    if ts.len() > 0 {
        let rest = ts.drop_first();
        assert forall|k: int| 0 <= k < rest.len() implies weakly_oriented(ccw, #[trigger] triangle_area2(rest[k])) by {
            assert(rest[k] == ts[k + 1]);
        }
        lemma_abs_sum(rest, ccw);
        assert(weakly_oriented(ccw, triangle_area2(ts[0])));
    }
}

/// Ear clipping a polygon with `n >= 3` vertices gives exactly `n - 2` triangles, whose
/// doubled signed areas add up to the polygon's (shoelace) doubled signed area; a triangle
/// comes back as itself; and every corner of every triangle is a vertex of the polygon.
/// When every step finds a true ear (as it does for a simple polygon), every triangle is
/// oriented like the polygon, so their absolute areas add up to the polygon's.
pub proof fn lemma_triangulation(p: Seq<Vec2D>)
    requires
        p.len() >= 3,
    ensures
        triangulation(p).len() == p.len() - 2,
        total_area2(triangulation(p)) == shoelace(p),
        p.len() == 3 ==> triangulation(p) == seq![p],
        forall|k: int, j: int| 0 <= k < triangulation(p).len() && 0 <= j < 3 ==> p.contains(#[trigger] triangulation(p)[k][j]),
        forall|k: int| 0 <= k < triangulation(p).len() ==> (#[trigger] triangulation(p)[k]).len() == 3,
        clipped_by_ears(p, is_ccw(p)) ==> (forall|k: int| 0 <= k < triangulation(p).len() ==> weakly_oriented(
            is_ccw(p),
            #[trigger] triangle_area2(triangulation(p)[k]),
        )),
        clipped_by_ears(p, is_ccw(p)) ==> total_abs_area2(triangulation(p)) == (if shoelace(p) >= 0 { shoelace(p) } else { -shoelace(p) }),
{
    let ccw = is_ccw(p);
    lemma_ear_clip(p, ccw);
    if clipped_by_ears(p, ccw) {
        lemma_ears_oriented(p, ccw);
        lemma_abs_sum(triangulation(p), ccw);
    }
}

/// The points of the triangles `ts` rasterized one after another.
pub open spec fn triangles_points(ts: Seq<Seq<Vec2D>>) -> Seq<Vec2D>
    decreases ts.len(),
{
    if ts.len() == 0 {
        Seq::empty()
    } else {
        triangles_points(ts.drop_last()) + triangle_points(ts.last())
    }
}

/// A filled polygon, drawn as the triangles of its ear clipping.
#[derive(Debug, Clone)]
pub struct Polygon {
    pub vertices: Vec<Vec2D>,
    pub fill_char: ColChar,
}

impl Polygon {
    /// Create a polygon from its vertices.
    pub fn new(vertices: &Vec<Vec2D>, fill_char: ColChar) -> (p: Self)
        ensures
            p.vertices@ == vertices@,
            p.fill_char == fill_char,
    {
        Polygon { vertices: vertices.clone(), fill_char }
    }

    /// Every point the polygon plots, in order.
    pub fn points(&self) -> (r: Vec<Vec2D>)
        requires
            all_in_coord_range(self.vertices@),
        ensures
            r@ == triangles_points(triangulation(self.vertices@)),
    {
        let tris = triangulate(&self.vertices);
        let ghost ts = triangulation(self.vertices@);
        proof {
            if self.vertices@.len() >= 3 {
                lemma_triangulation(self.vertices@);
            }
        }
        let mut pts: Vec<Vec2D> = Vec::new();
        let mut k: usize = 0;
        while k < tris.len()
            invariant
                k <= tris@.len(),
                tris@.len() == ts.len(),
                ts == triangulation(self.vertices@),
                forall|i: int| 0 <= i < tris@.len() ==> (#[trigger] tris@[i])@ == ts[i],
                self.vertices@.len() >= 3 ==> forall|i: int, j: int| 0 <= i < ts.len() && 0 <= j < 3 ==> self.vertices@.contains(#[trigger] ts[i][j]),
                all_in_coord_range(self.vertices@),
                pts@ == triangles_points(ts.take(k as int)),
            decreases tris@.len() - k,
        {
            let t = Triangle::with_array(tris[k], self.fill_char);
            proof {
                assert(self.vertices@.len() >= 3);
                assert forall|j: int| 0 <= j < 3 implies in_coord_range(#[trigger] t.corners@[j]) by {
                    assert(self.vertices@.contains(ts[k as int][j]));
                    let i = choose|i: int| 0 <= i < self.vertices@.len() && self.vertices@[i] == ts[k as int][j];
                    assert(in_coord_range(self.vertices@[i]));
                }
            }
            let mut tp = t.points();
            pts.append(&mut tp);
            k = k + 1;
            proof {
                assert(ts.take(k as int).drop_last() =~= ts.take(k - 1));
            }
        }
        proof {
            assert(ts.take(k as int) =~= ts);
        }
        pts
    }
}

impl CanDraw for Polygon {
    open spec fn drawable(&self) -> bool {
        all_in_coord_range(self.vertices@)
    }

    open spec fn pixels(&self) -> Seq<Pixel> {
        pixels_of(triangles_points(triangulation(self.vertices@)), self.fill_char)
    }

    fn draw_to<C: Canvas>(&self, canvas: &mut C) {
        let pts = self.points();
        let px = points_to_pixels(&pts, self.fill_char);
        plot_pixels(canvas, &px);
    }
}

} // verus!
