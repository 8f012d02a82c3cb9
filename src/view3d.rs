use vstd::prelude::*;
use crate::canvas::{Canvas, CanDraw, Pixel, plot_pixels, pixels_of, points_to_pixels};
use crate::colchar::{ColChar, decimal, push_decimal};
use crate::line::{line_path, line_points};
use crate::polygon::{Polygon, triangulation, triangles_points, chain_sum, shoelace, lemma_chain_concat, lemma_cross_antisym};
use crate::vec2d::{Vec2D, in_coord_range, all_in_coord_range, cross};

verus! {

/// A face of a mesh: indices into the mesh's vertices, wound clockwise as seen from the
/// front, and the appearance that fills it.
#[derive(Debug, Clone)]
pub struct Face {
    pub v_indices: Vec<usize>,
    pub fill_char: ColChar,
}

/// Every index is below `n`.
pub open spec fn indices_below(idx: Seq<usize>, n: nat) -> bool {
    forall|k: int| 0 <= k < idx.len() ==> #[trigger] idx[k] < n
}

/// The message reporting that `index` is out of bounds for `len` vertices.
pub open spec fn index_error_text(index: nat, len: nat) -> Seq<char> {
    "Mesh face vertex index ("@ + decimal(index) + ") is out of bounds ("@ + decimal(len) + ")"@
}

impl Face {
    /// Create a face from vertex indices and a fill appearance.
    pub fn new(v_indices: Vec<usize>, fill_char: ColChar) -> (f: Self)
        ensures
            f.v_indices@ == v_indices@,
            f.fill_char == fill_char,
    {
        Face { v_indices, fill_char }
    }

    /// The elements of `vertices` at the face's indices, in order; an error naming the
    /// first index that is out of bounds, if any is.
    pub fn index_into<T: Copy>(&self, vertices: &Vec<T>) -> (r: Result<Vec<T>, String>)
        ensures
            r is Ok <==> indices_below(self.v_indices@, vertices@.len()),
            r matches Ok(v) ==> v@ == self.v_indices@.map_values(|i: usize| vertices@[i as int]),
            r matches Err(e) ==> exists|k: int|
                0 <= k < self.v_indices@.len() && self.v_indices@[k] >= vertices@.len()
                    && indices_below(self.v_indices@.take(k), vertices@.len())
                    && e@ == index_error_text(self.v_indices@[k] as nat, vertices@.len()),
    {
        let mut out: Vec<T> = Vec::new();
        let mut k: usize = 0;
        while k < self.v_indices.len()
            invariant
                k <= self.v_indices@.len(),
                indices_below(self.v_indices@.take(k as int), vertices@.len()),
                out@ == self.v_indices@.take(k as int).map_values(|i: usize| vertices@[i as int]),
            decreases self.v_indices@.len() - k,
        {
            let index = self.v_indices[k];
            if index < vertices.len() {
                out.push(vertices[index]);
                k = k + 1;
                assert(out@ =~= self.v_indices@.take(k as int).map_values(|i: usize| vertices@[i as int]));
                assert(indices_below(self.v_indices@.take(k as int), vertices@.len())) by {
                    assert forall|j: int| 0 <= j < k implies #[trigger] self.v_indices@.take(k as int)[j] < vertices@.len() by {
                        if j < k - 1 {
                            assert(self.v_indices@.take(k as int)[j] == self.v_indices@.take(k - 1)[j]);
                        }
                    }
                }
            } else {
                let mut e = String::new();
                e.append("Mesh face vertex index (");
                push_decimal(&mut e, index as u64);
                e.append(") is out of bounds (");
                push_decimal(&mut e, vertices.len() as u64);
                e.append(")");
                assert(e@ =~= index_error_text(index as nat, vertices@.len()));
                assert(!indices_below(self.v_indices@, vertices@.len()));
                return Err(e);
            }
        }
        assert(self.v_indices@.take(k as int) =~= self.v_indices@);
        Ok(out)
    }
}

/// The shoelace term of the edge from `a` to `b`.
pub open spec fn winding_term(a: Vec2D, b: Vec2D) -> int {
    (a.x - b.x) * (a.y + b.y)
}

/// The sum of the shoelace terms of the first `k` edges of the closed polygon `s`.
pub open spec fn winding_sum(s: Seq<Vec2D>, k: int) -> int
    decreases k,
{
    if k <= 0 {
        0
    } else {
        winding_sum(s, k - 1) + winding_term(s[k - 1], s[k % (s.len() as int)])
    }
}

/// The projected polygon passes the front-face test: at least three points and a
/// non-positive shoelace sum, that is, clockwise in a y-up frame (counter-clockwise as seen
/// on a y-down screen) or of zero area.
pub open spec fn clockwise(s: Seq<Vec2D>) -> bool {
    s.len() >= 3 && winding_sum(s, s.len() as int) <= 0
}

/// Whether the projected points are arranged clockwise on screen; fewer than three points
/// never are.
pub fn is_clockwise(points: &Vec<Vec2D>) -> (r: bool)
    requires
        all_in_coord_range(points@),
    ensures
        r == clockwise(points@),
{
    let n = points.len();
    if n < 3 {
        return false;
    }
    let mut sum: i128 = 0;
    let mut i: usize = 0;
    while i < n
        invariant
            n == points@.len(),
            n >= 3,
            i <= n,
            all_in_coord_range(points@),
            sum == winding_sum(points@, i as int),
            -(i as int) * 0x4000_0000_0000_0000 <= sum <= (i as int) * 0x4000_0000_0000_0000,
        decreases n - i,
    {
        let j = if i + 1 < n { i + 1 } else { 0 };
        proof {
            if i + 1 < n {
                vstd::arithmetic::div_mod::lemma_small_mod((i + 1) as nat, n as nat);
            } else {
                vstd::arithmetic::div_mod::lemma_mod_self_0(n as int);
            }
        }
        let p1 = points[i];
        let p2 = points[j];
        assert(in_coord_range(p1) && in_coord_range(p2));
        let a: i128 = p1.x as i128 - p2.x as i128;
        let b: i128 = p1.y as i128 + p2.y as i128;
        assert(-0x4000_0000_0000_0000 <= a * b <= 0x4000_0000_0000_0000) by (nonlinear_arith)
            requires
                -0x8000_0000 <= a <= 0x8000_0000,
                -0x8000_0000 <= b <= 0x8000_0000,
        ;
        assert((i as int + 1) * 0x4000_0000_0000_0000 == (i as int) * 0x4000_0000_0000_0000 + 0x4000_0000_0000_0000) by (nonlinear_arith);
        assert((i as int + 1) * 0x4000_0000_0000_0000 <= 0x4000_0000_0000_0000_0000_0000_0000_0000) by (nonlinear_arith)
            requires
                i < n,
                n <= usize::MAX,
        ;
        sum = sum + a * b;
        i = i + 1;
    }
    sum <= 0
}

/// How a scene of projected faces is drawn.
#[derive(Debug, Clone, Copy, PartialEq, Eq, Structural)]
pub enum DisplayMode {
    /// The edges of each face, optionally without the faces that point away.
    Wireframe { backface_culling: bool },
    /// Each front face filled with its own appearance, farthest first.
    Solid,
    /// Like `Solid`, with each face's character taken from the brightness ramp.
    Illuminated,
}

/// The brightness ramp, from darkest to brightest.
pub open spec fn brightness_ramp() -> Seq<char> {
    seq!['.', ',', '-', '~', ':', ';', '=', '!', '*', '#', '$', '@']
}

/// A ramp level clamped to the last character of the ramp.
pub open spec fn clamped_level(level: nat) -> int {
    if level < brightness_ramp().len() {
        level as int
    } else {
        brightness_ramp().len() - 1
    }
}

/// The character of the brightness ramp at `level`, clamped to the brightest one.
pub fn brightness_char(level: usize) -> (c: char)
    ensures
        c == brightness_ramp()[clamped_level(level as nat)],
{
    let ramp = ['.', ',', '-', '~', ':', ';', '=', '!', '*', '#', '$', '@'];
    assert(ramp@ =~= brightness_ramp());
    let i = if level < 12 { level } else { 11 };
    ramp[i]
}

/// A brighter level never gives an earlier character of the ramp.
pub proof fn lemma_brightness_monotone(a: nat, b: nat)
    requires
        a <= b,
    ensures
        clamped_level(a) <= clamped_level(b),
{
}

/// A face after projection: its points on screen, its appearance, its depth (larger is
/// farther from the camera), whether any vertex is behind the near plane, and the
/// brightness level it is lit to, if it could be lit.
#[derive(Debug, Clone)]
pub struct ProjectedFace {
    pub vertices: Vec<Vec2D>,
    pub fill_char: ColChar,
    pub depth: i64,
    pub behind_camera: bool,
    pub light_level: Option<usize>,
}

impl ProjectedFace {
    /// A face in front of the camera and without lighting.
    pub fn new(vertices: Vec<Vec2D>, fill_char: ColChar, depth: i64) -> (f: Self)
        ensures
            f.vertices@ == vertices@,
            f.fill_char == fill_char,
            f.depth == depth,
            !f.behind_camera,
            f.light_level is None,
    {
        ProjectedFace { vertices, fill_char, depth, behind_camera: false, light_level: None }
    }

    /// The projected points.
    pub fn projected_vertices(&self) -> (r: Vec<Vec2D>)
        ensures
            r@ == self.vertices@,
    {
        self.vertices.clone()
    }
}

/// The face survives clipping and, when `cull` is set, backface culling.
pub open spec fn face_visible(f: ProjectedFace, cull: bool) -> bool {
    !f.behind_camera && (!cull || clockwise(f.vertices@))
}

/// The indices, in order, of the first `k` faces that are visible.
pub open spec fn visible_indices(faces: Seq<ProjectedFace>, cull: bool, k: int) -> Seq<usize>
    decreases k,
{
    if k <= 0 {
        Seq::empty()
    } else if face_visible(faces[k - 1], cull) {
        visible_indices(faces, cull, k - 1).push((k - 1) as usize)
    } else {
        visible_indices(faces, cull, k - 1)
    }
}

/// The first position from `p` on in `sorted` whose face is nearer than depth `d`, or the end.
pub open spec fn insert_position(faces: Seq<ProjectedFace>, sorted: Seq<usize>, d: int, p: int) -> int
    decreases sorted.len() - p,
{
    if p < 0 || p >= sorted.len() {
        sorted.len() as int
    } else if faces[sorted[p] as int].depth < d {
        p
    } else {
        insert_position(faces, sorted, d, p + 1)
    }
}

/// The face indices ordered by descending depth; equal depths keep their order.
pub open spec fn depth_sorted(faces: Seq<ProjectedFace>, idx: Seq<usize>) -> Seq<usize>
    decreases idx.len(),
{
    if idx.len() == 0 {
        Seq::empty()
    } else {
        let sorted = depth_sorted(faces, idx.drop_last());
        let i = idx.last();
        sorted.insert(insert_position(faces, sorted, faces[i as int].depth as int, 0), i)
    }
}

/// Whether the mode removes faces that point away.
pub open spec fn mode_culls(mode: DisplayMode) -> bool {
    match mode {
        DisplayMode::Wireframe { backface_culling } => backface_culling,
        _ => true,
    }
}

/// The faces drawn, in drawing order: the visible ones, farthest first unless in wireframe.
pub open spec fn draw_order(faces: Seq<ProjectedFace>, mode: DisplayMode) -> Seq<usize> {
    let visible = visible_indices(faces, mode_culls(mode), faces.len() as int);
    match mode {
        DisplayMode::Wireframe { .. } => visible,
        _ => depth_sorted(faces, visible),
    }
}

fn sort_by_depth(faces: &Vec<ProjectedFace>, idx: &Vec<usize>) -> (r: Vec<usize>)
    requires
        indices_below(idx@, faces@.len()),
    ensures
        r@ == depth_sorted(faces@, idx@),
{
    let mut sorted: Vec<usize> = Vec::new();
    let mut k: usize = 0;
    assert(idx@.take(0) =~= sorted@);
    while k < idx.len()
        invariant
            k <= idx@.len(),
            indices_below(idx@, faces@.len()),
            sorted@ == depth_sorted(faces@, idx@.take(k as int)),
            indices_below(sorted@, faces@.len()),
            sorted@.to_multiset() == idx@.take(k as int).to_multiset(),
        decreases idx@.len() - k,
    {
        let i = idx[k];
        let d = faces[i].depth;
        let mut p: usize = 0;
        while p < sorted.len() && faces[sorted[p]].depth >= d
            invariant
                p <= sorted@.len(),
                indices_below(sorted@, faces@.len()),
                insert_position(faces@, sorted@, d as int, 0) == insert_position(faces@, sorted@, d as int, p as int),
            decreases sorted@.len() - p,
        {
            p = p + 1;
        }
        let ghost before = sorted@;
        sorted.insert(p, i);
        proof {
            let t = idx@.take(k + 1);
            assert(t.drop_last() =~= idx@.take(k as int));
            assert(t.last() == i);
            vstd::seq_lib::to_multiset_insert(before, p as int, i);
            vstd::seq_lib::to_multiset_build(idx@.take(k as int), i);
            assert(t =~= idx@.take(k as int).push(i));
            assert forall|j: int| 0 <= j < sorted@.len() implies #[trigger] sorted@[j] < faces@.len() by {
                if j < p {
                    assert(sorted@[j] == before[j]);
                } else if j > p {
                    assert(sorted@[j] == before[j - 1]);
                }
            }
        }
        k = k + 1;
    }
    assert(idx@.take(k as int) =~= idx@);
    sorted
}

fn visible_faces(faces: &Vec<ProjectedFace>, cull: bool) -> (r: Vec<usize>)
    requires
        forall|k: int| 0 <= k < faces@.len() ==> all_in_coord_range(#[trigger] faces@[k].vertices@),
    ensures
        r@ == visible_indices(faces@, cull, faces@.len() as int),
        indices_below(r@, faces@.len()),
{
    let mut r: Vec<usize> = Vec::new();
    let mut k: usize = 0;
    while k < faces.len()
        invariant
            k <= faces@.len(),
            forall|j: int| 0 <= j < faces@.len() ==> all_in_coord_range(#[trigger] faces@[j].vertices@),
            r@ == visible_indices(faces@, cull, k as int),
            indices_below(r@, k as nat),
        decreases faces@.len() - k,
    {
        let f = &faces[k];
        assert(all_in_coord_range(faces@[k as int].vertices@));
        let keep = !f.behind_camera && (!cull || is_clockwise(&f.vertices));
        if keep {
            r.push(k);
        }
        k = k + 1;
    }
    r
}

/// The points of the first `k` edges of the closed outline `vs`, each edge from a vertex
/// to the next (the last one back to the first).
pub open spec fn outline_points(vs: Seq<Vec2D>, k: int) -> Seq<Vec2D>
    decreases k,
{
    if k <= 0 {
        Seq::empty()
    } else {
        outline_points(vs, k - 1) + line_path(vs[k - 1], vs[k % (vs.len() as int)])
    }
}

/// The points a face plots in `mode`: its outline in wireframe, its filled polygon otherwise.
pub open spec fn face_points(f: ProjectedFace, mode: DisplayMode) -> Seq<Vec2D> {
    match mode {
        DisplayMode::Wireframe { .. } => outline_points(f.vertices@, f.vertices@.len() as int),
        _ => triangles_points(triangulation(f.vertices@)),
    }
}

/// The appearance a face is drawn with in `mode`: when illuminated and lit, its character is
/// replaced by the brightness ramp's character for its level.
pub open spec fn face_appearance(f: ProjectedFace, mode: DisplayMode) -> ColChar {
    match (mode, f.light_level) {
        (DisplayMode::Illuminated, Some(level)) => ColChar {
            text_char: brightness_ramp()[clamped_level(level as nat)],
            ..f.fill_char
        },
        _ => f.fill_char,
    }
}

/// The pixels of the faces listed in the first `k` entries of `order`, one face after another.
pub open spec fn scene_pixels(faces: Seq<ProjectedFace>, order: Seq<usize>, mode: DisplayMode, k: int) -> Seq<Pixel>
    decreases k,
{
    if k <= 0 {
        Seq::empty()
    } else {
        let f = faces[order[k - 1] as int];
        scene_pixels(faces, order, mode, k - 1) + pixels_of(face_points(f, mode), face_appearance(f, mode))
    }
}

fn outline(vs: &Vec<Vec2D>) -> (r: Vec<Vec2D>)
    ensures
        r@ == outline_points(vs@, vs@.len() as int),
{
    let n = vs.len();
    let mut pts: Vec<Vec2D> = Vec::new();
    let mut i: usize = 0;
    while i < n
        invariant
            n == vs@.len(),
            i <= n,
            pts@ == outline_points(vs@, i as int),
        decreases n - i,
    {
        let j = if i + 1 < n { i + 1 } else { 0 };
        proof {
            if i + 1 < n {
                vstd::arithmetic::div_mod::lemma_small_mod((i + 1) as nat, n as nat);
            } else {
                vstd::arithmetic::div_mod::lemma_mod_self_0(n as int);
            }
        }
        let mut edge = line_points(vs[i], vs[j]);
        pts.append(&mut edge);
        i = i + 1;
    }
    pts
}

fn shade(f: &ProjectedFace, mode: DisplayMode) -> (c: ColChar)
    ensures
        c == face_appearance(*f, mode),
{
    match (mode, f.light_level) {
        (DisplayMode::Illuminated, Some(level)) => f.fill_char.with_char(brightness_char(level)),
        _ => f.fill_char,
    }
}

/// Projected faces together with the mode they are drawn in.
#[derive(Debug, Clone)]
pub struct ProjectedScene {
    pub faces: Vec<ProjectedFace>,
    pub display_mode: DisplayMode,
}

impl ProjectedScene {
    /// A scene of faces drawn in `display_mode`.
    pub fn new(faces: Vec<ProjectedFace>, display_mode: DisplayMode) -> (s: Self)
        ensures
            s.faces@ == faces@,
            s.display_mode == display_mode,
    {
        ProjectedScene { faces, display_mode }
    }

    /// The indices of the faces drawn, in drawing order: faces behind the camera are
    /// dropped, faces wound counter-clockwise are dropped when the mode culls, and outside
    /// wireframe the rest are sorted farthest first, equal depths keeping their order.
    pub fn draw_order(&self) -> (r: Vec<usize>)
        requires
            forall|k: int| 0 <= k < self.faces@.len() ==> all_in_coord_range(#[trigger] self.faces@[k].vertices@),
        ensures
            r@ == draw_order(self.faces@, self.display_mode),
            indices_below(r@, self.faces@.len()),
    {
        let visible = visible_faces(&self.faces, match self.display_mode {
            DisplayMode::Wireframe { backface_culling } => backface_culling,
            _ => true,
        });
        match self.display_mode {
            DisplayMode::Wireframe { .. } => visible,
            _ => {
                let r = sort_by_depth(&self.faces, &visible);
                proof {
                    lemma_depth_sorted_indices(self.faces@, visible@);
                }
                r
            },
        }
    }

    /// Every point the scene plots, with its appearance, in order.
    pub fn pixels_vec(&self) -> (r: Vec<Pixel>)
        requires
            forall|k: int| 0 <= k < self.faces@.len() ==> all_in_coord_range(#[trigger] self.faces@[k].vertices@),
        ensures
            r@ == self.pixels(),
    {
        let order = self.draw_order();
        let mut px: Vec<Pixel> = Vec::new();
        let mut k: usize = 0;
        while k < order.len()
            invariant
                k <= order@.len(),
                order@ == draw_order(self.faces@, self.display_mode),
                indices_below(order@, self.faces@.len()),
                forall|j: int| 0 <= j < self.faces@.len() ==> all_in_coord_range(#[trigger] self.faces@[j].vertices@),
                px@ == scene_pixels(self.faces@, order@, self.display_mode, k as int),
            decreases order@.len() - k,
        {
            let f = &self.faces[order[k]];
            assert(all_in_coord_range(self.faces@[order@[k as int] as int].vertices@));
            let pts = match self.display_mode {
                DisplayMode::Wireframe { .. } => outline(&f.vertices),
                _ => Polygon::new(&f.vertices, f.fill_char).points(),
            };
            let mut fp = points_to_pixels(&pts, shade(f, self.display_mode));
            px.append(&mut fp);
            k = k + 1;
        }
        px
    }
}

impl CanDraw for ProjectedScene {
    open spec fn drawable(&self) -> bool {
        forall|k: int| 0 <= k < self.faces@.len() ==> all_in_coord_range(#[trigger] self.faces@[k].vertices@)
    }

    open spec fn pixels(&self) -> Seq<Pixel> {
        let order = draw_order(self.faces@, self.display_mode);
        scene_pixels(self.faces@, order, self.display_mode, order.len() as int)
    }

    fn draw_to<C: Canvas>(&self, canvas: &mut C) {
        let px = self.pixels_vec();
        plot_pixels(canvas, &px);
    }
}

proof fn lemma_depth_sorted_indices(faces: Seq<ProjectedFace>, idx: Seq<usize>)
    requires
        indices_below(idx, faces.len()),
    ensures
        indices_below(depth_sorted(faces, idx), faces.len()),
        depth_sorted(faces, idx).to_multiset() == idx.to_multiset(),
    decreases idx.len(),
{
    if idx.len() > 0 {
        let rest = idx.drop_last();
        lemma_depth_sorted_indices(faces, rest);
        let sorted = depth_sorted(faces, rest);
        let i = idx.last();
        let p = insert_position(faces, sorted, faces[i as int].depth as int, 0);
        lemma_insert_position(faces, sorted, faces[i as int].depth as int, 0);
        vstd::seq_lib::to_multiset_insert(sorted, p, i);
        vstd::seq_lib::to_multiset_build(rest, i);
        assert(idx =~= rest.push(i));
        let r = sorted.insert(p, i);
        assert forall|j: int| 0 <= j < r.len() implies #[trigger] r[j] < faces.len() by {
            if j < p {
                assert(r[j] == sorted[j]);
            } else if j > p {
                assert(r[j] == sorted[j - 1]);
            }
        }
    } else {
        assert(idx =~= Seq::<usize>::empty());
    }
}

proof fn lemma_insert_position(faces: Seq<ProjectedFace>, sorted: Seq<usize>, d: int, p: int)
    requires
        0 <= p <= sorted.len(),
    ensures
        p <= insert_position(faces, sorted, d, p) <= sorted.len(),
        forall|q: int| p <= q < insert_position(faces, sorted, d, p) ==> faces[#[trigger] sorted[q] as int].depth >= d,
        insert_position(faces, sorted, d, p) < sorted.len() ==> faces[sorted[insert_position(faces, sorted, d, p)] as int].depth < d,
    decreases sorted.len() - p,
{
    if p < sorted.len() && faces[sorted[p] as int].depth >= d {
        lemma_insert_position(faces, sorted, d, p + 1);
    }
}

/// The entries of `s` strictly increase.
pub open spec fn strictly_increasing(s: Seq<usize>) -> bool {
    forall|a: int, b: int| 0 <= a < b < s.len() ==> s[a] < s[b]
}

/// Face `a` is drawn before face `b` by the painter's rule: it is farther, or equally far
/// and listed earlier.
pub open spec fn painted_before(faces: Seq<ProjectedFace>, a: usize, b: usize) -> bool {
    faces[a as int].depth > faces[b as int].depth || (faces[a as int].depth == faces[b as int].depth && a < b)
}

proof fn lemma_depth_sorted_order(faces: Seq<ProjectedFace>, idx: Seq<usize>)
    requires
        indices_below(idx, faces.len()),
        strictly_increasing(idx),
    ensures
        forall|a: int, b: int| 0 <= a < b < depth_sorted(faces, idx).len() ==> painted_before(
            faces,
            #[trigger] depth_sorted(faces, idx)[a],
            #[trigger] depth_sorted(faces, idx)[b],
        ),
    decreases idx.len(),
{
    if idx.len() > 0 {
        let rest = idx.drop_last();
        lemma_depth_sorted_order(faces, rest);
        lemma_depth_sorted_indices(faces, rest);
        let sorted = depth_sorted(faces, rest);
        let i = idx.last();
        let d = faces[i as int].depth as int;
        let p = insert_position(faces, sorted, d, 0);
        lemma_insert_position(faces, sorted, d, 0);
        let r = sorted.insert(p, i);
        assert(r == depth_sorted(faces, idx));
        assert forall|q: int| 0 <= q < sorted.len() implies #[trigger] sorted[q] < i by {
            vstd::seq_lib::to_multiset_contains(sorted, sorted[q]);
            assert(sorted.contains(sorted[q]));
            vstd::seq_lib::to_multiset_contains(rest, sorted[q]);
            let w = choose|w: int| 0 <= w < rest.len() && rest[w] == sorted[q];
            assert(rest[w] == idx[w]);
        }
        assert forall|a: int, b: int| 0 <= a < b < r.len() implies painted_before(faces, #[trigger] r[a], #[trigger] r[b]) by {
            if a < p && b < p {
                assert(r[a] == sorted[a] && r[b] == sorted[b]);
            } else if a < p && b == p {
                assert(r[a] == sorted[a]);
            } else if a < p && b > p {
                assert(r[a] == sorted[a] && r[b] == sorted[b - 1]);
            } else if a == p {
                assert(r[b] == sorted[b - 1]);
                if b - 1 > p {
                    assert(painted_before(faces, sorted[p], sorted[b - 1]));
                }
            } else {
                assert(r[a] == sorted[a - 1] && r[b] == sorted[b - 1]);
            }
        }
    }
}

proof fn lemma_visible_indices(faces: Seq<ProjectedFace>, cull: bool, k: int)
    requires
        0 <= k <= faces.len(),
        faces.len() <= usize::MAX,
    ensures
        strictly_increasing(visible_indices(faces, cull, k)),
        forall|j: int| 0 <= j < visible_indices(faces, cull, k).len() ==> #[trigger] visible_indices(faces, cull, k)[j] < k,
    decreases k,
{
    if k > 0 {
        lemma_visible_indices(faces, cull, k - 1);
        let prev = visible_indices(faces, cull, k - 1);
        if face_visible(faces[k - 1], cull) {
            let v = prev.push((k - 1) as usize);
            assert forall|a: int, b: int| 0 <= a < b < v.len() implies v[a] < v[b] by {
                if b == v.len() - 1 {
                    assert(v[a] == prev[a]);
                } else {
                    assert(v[a] == prev[a] && v[b] == prev[b]);
                }
            }
        }
    }
}

/// Outside wireframe, the scene draws exactly its visible faces, farthest first, and faces
/// at equal depth in the order they are listed.
pub proof fn lemma_draw_order_by_depth(faces: Seq<ProjectedFace>, mode: DisplayMode)
    requires
        !(mode is Wireframe),
        faces.len() <= usize::MAX,
    ensures
        draw_order(faces, mode).to_multiset() == visible_indices(faces, true, faces.len() as int).to_multiset(),
        forall|a: int, b: int| 0 <= a < b < draw_order(faces, mode).len() ==> painted_before(
            faces,
            #[trigger] draw_order(faces, mode)[a],
            #[trigger] draw_order(faces, mode)[b],
        ),
{
    let visible = visible_indices(faces, true, faces.len() as int);
    lemma_visible_indices(faces, true, faces.len() as int);
    lemma_depth_sorted_indices(faces, visible);
    lemma_depth_sorted_order(faces, visible);
}

/// The sum of `cross(s[i], s[i + 1])` over the first `k` edges of the closed polygon `s`.
pub open spec fn edge_cross_sum(s: Seq<Vec2D>, k: int) -> int
    decreases k,
{
    if k <= 0 {
        0
    } else {
        edge_cross_sum(s, k - 1) + cross(s[k - 1], s[k % (s.len() as int)])
    }
}

proof fn lemma_winding_telescopes(s: Seq<Vec2D>, k: int)
    requires
        s.len() >= 1,
        0 <= k <= s.len(),
    ensures
        winding_sum(s, k) == edge_cross_sum(s, k) + s[0].x * s[0].y - s[k % (s.len() as int)].x * s[k % (s.len() as int)].y,
    decreases k,
{
    let n = s.len() as int;
    if k == 0 {
        vstd::arithmetic::div_mod::lemma_small_mod(0, n as nat);
    } else {
        lemma_winding_telescopes(s, k - 1);
        vstd::arithmetic::div_mod::lemma_small_mod((k - 1) as nat, n as nat);
        let a = s[k - 1];
        let b = s[k % n];
        assert(winding_term(a, b) == cross(a, b) + a.x * a.y - b.x * b.y) by (nonlinear_arith);
    }
}

proof fn lemma_chain_is_edge_sum(s: Seq<Vec2D>, k: int)
    requires
        0 <= k < s.len(),
    ensures
        chain_sum(s.take(k + 1)) == edge_cross_sum(s, k),
    decreases k,
{
    let n = s.len() as int;
    if k > 0 {
        lemma_chain_is_edge_sum(s, k - 1);
        vstd::arithmetic::div_mod::lemma_small_mod(k as nat, n as nat);
        let t = s.take(k + 1);
        assert(t.drop_last() =~= s.take(k));
    }
}

/// The projected polygon counts as clockwise exactly when it has at least three points and
/// its doubled signed area (shoelace formula, `x * y' - x' * y` summed over the edges) is not
/// positive.
pub proof fn lemma_clockwise_is_area_sign(s: Seq<Vec2D>)
    ensures
        clockwise(s) == (s.len() >= 3 && shoelace(s) <= 0),
{
    if s.len() >= 3 {
        let n = s.len() as int;
        lemma_winding_telescopes(s, n);
        vstd::arithmetic::div_mod::lemma_mod_self_0(n);
        lemma_chain_is_edge_sum(s, n - 1);
        assert(s.take(n) =~= s);
        vstd::arithmetic::div_mod::lemma_mod_self_0(n);
        assert(edge_cross_sum(s, n) == edge_cross_sum(s, n - 1) + cross(s[n - 1], s[0]));
    }
}

proof fn lemma_chain_reverse(s: Seq<Vec2D>)
    ensures
        chain_sum(s.reverse()) == -chain_sum(s),
    decreases s.len(),
{
    if s.len() >= 2 {
        let t = s.drop_last();
        let x = s.last();
        lemma_chain_reverse(t);
        assert(s.reverse() =~= seq![x] + t.reverse());
        lemma_chain_concat(seq![x], t.reverse());
        assert(chain_sum(seq![x]) == 0);
        assert(t.reverse()[0] == t.last());
        lemma_cross_antisym(t.last(), x);
        assert(s[s.len() - 2] == t.last());
    } else if s.len() == 1 {
        assert(s.reverse().len() == 1);
    } else {
        assert(s.reverse().len() == 0);
    }
}

/// Reversing the order of a polygon's vertices negates its doubled signed area; so a polygon
/// with non-zero area is front-facing in exactly one of its two orders.
pub proof fn lemma_reverse_flips_facing(s: Seq<Vec2D>)
    requires
        s.len() >= 3,
    ensures
        shoelace(s.reverse()) == -shoelace(s),
        shoelace(s) != 0 ==> clockwise(s) != clockwise(s.reverse()),
{
    lemma_chain_reverse(s);
    let r = s.reverse();
    assert(r.last() == s[0] && r[0] == s.last());
    lemma_cross_antisym(s.last(), s[0]);
    lemma_clockwise_is_area_sign(s);
    lemma_clockwise_is_area_sign(r);
}

} // verus!
