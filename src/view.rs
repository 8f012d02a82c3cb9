use vstd::prelude::*;
use vstd::view::View as HasView;
use vstd::seq_lib::lemma_concat_associative;
use vstd::string::StringExecFns;
use crate::canvas::{Canvas, CanDraw, Pixel, plot_all, accepts_all, plot_pixels};
use crate::colchar::{ColChar, Modifier, cell_text, modifier_text, push_char};
use crate::vec2d::Vec2D;
use crate::wrapping::{WrappingMode, handled, admits};

verus! {

/// The abstract state of a `View`: its size, wrapping mode and cells in row-major order.
pub struct ViewModel {
    pub width: nat,
    pub height: nat,
    pub background_char: ColChar,
    pub wrapping_mode: WrappingMode,
    pub block_until_resized: bool,
    pub cells: Seq<ColChar>,
}

impl ViewModel {
    /// The cell array matches the size, and the size fits a `Vec2D`.
    pub open spec fn wf(&self) -> bool {
        &&& self.cells.len() == self.width * self.height
        &&& self.width * self.height <= usize::MAX
        &&& self.width <= i64::MAX
        &&& self.height <= i64::MAX
    }

    /// The size as a vector.
    pub open spec fn size(&self) -> Vec2D {
        Vec2D { x: self.width as i64, y: self.height as i64 }
    }

    /// The cells of row `y`.
    pub open spec fn row(&self, y: int) -> Seq<ColChar> {
        self.cells.subrange(y * self.width, (y + 1) * self.width)
    }
}

/// A grid of coloured characters that can be serialized to ANSI text.
#[derive(Debug, Clone)]
pub struct View {
    /// The width; after changing it, clear the view to resize its cells.
    pub width: usize,
    /// The height; after changing it, clear the view to resize its cells.
    pub height: usize,
    /// What every cell holds after `clear`.
    pub background_char: ColChar,
    /// How positions outside the view are treated.
    pub wrapping_mode: WrappingMode,
    /// Whether the caller that prints the view should first wait for the terminal to fit it.
    pub block_until_resized: bool,
    pixels: Vec<ColChar>,
}

impl HasView for View {
    type V = ViewModel;

    closed spec fn view(&self) -> ViewModel {
        ViewModel {
            width: self.width as nat,
            height: self.height as nat,
            background_char: self.background_char,
            wrapping_mode: self.wrapping_mode,
            block_until_resized: self.block_until_resized,
            cells: self.pixels@,
        }
    }
}

/// The state after one plot: the cell that the wrapping mode maps `pos` to now holds `c`;
/// a dropped position, or a view without cells, is left as it was.
pub open spec fn view_plotted(m: ViewModel, pos: Vec2D, c: ColChar) -> ViewModel {
    if m.width == 0 || m.height == 0 || !m.wf() {
        m
    } else {
        match handled(m.wrapping_mode, pos, m.size()) {
            Some(p) => ViewModel { cells: m.cells.update(p.y * m.width + p.x, c), ..m },
            None => m,
        }
    }
}

proof fn lemma_cell_index(x: int, y: int, w: int, h: int)
    requires
        0 <= x < w,
        0 <= y < h,
    ensures
        0 <= y * w + x < w * h,
        0 <= w * y,
        w * y + x < w * h,
        w * y == y * w,
{
    vstd::arithmetic::mul::lemma_mul_is_commutative(w, y);
    assert(y * w + x < w * h) by (nonlinear_arith)
        requires
            0 <= x < w,
            0 <= y < h,
    ;
    assert(0 <= y * w) by (nonlinear_arith)
        requires
            0 <= x < w,
            0 <= y,
    ;
}

impl Canvas for View {
    open spec fn accepts(model: ViewModel, pos: Vec2D) -> bool {
        model.wf() && admits(model.wrapping_mode, pos, model.size())
    }

    open spec fn plotted(model: ViewModel, pos: Vec2D, c: ColChar) -> ViewModel {
        view_plotted(model, pos, c)
    }

    proof fn lemma_plotted_accepts(model: ViewModel, pos: Vec2D, c: ColChar, q: Vec2D) {
        let after = view_plotted(model, pos, c);
        if model.width > 0 && model.height > 0 && model.wf() {
            if let Some(p) = handled(model.wrapping_mode, pos, model.size()) {
                lemma_cell_index(p.x as int, p.y as int, model.width as int, model.height as int);
            }
        }
        assert(after.cells.len() == model.cells.len());
        assert(after.size() == model.size());
    }

    fn plot(&mut self, pos: Vec2D, c: ColChar) {
        assert(self.pixels@.len() == self.width * self.height && self.width <= i64::MAX && self.height <= i64::MAX && self.width * self.height <= usize::MAX);
        if self.width == 0 || self.height == 0 {
            return;
        }
        let size = Vec2D { x: self.width as i64, y: self.height as i64 };
        match self.wrapping_mode.handle_bounds(pos, size) {
            Some(p) => {
                assert(0 <= p.x < self.width && 0 <= p.y < self.height);
                proof {
                    lemma_cell_index(p.x as int, p.y as int, self.width as int, self.height as int);
                }
                let i = self.width * (p.y as usize) + p.x as usize;
                self.pixels.set(i, c);
            },
            None => {},
        }
    }
}

/// The modifier of the cell before `i` in `row`, if there is one.
pub open spec fn prev_modifier(row: Seq<ColChar>, i: int) -> Option<Modifier> {
    if i > 0 {
        Some(row[i - 1].modifier)
    } else {
        None
    }
}

/// The modifier of the cell after `i` in `row`, if there is one.
pub open spec fn next_modifier(row: Seq<ColChar>, i: int) -> Option<Modifier> {
    if i + 1 < row.len() {
        Some(row[i + 1].modifier)
    } else {
        None
    }
}

/// The text of the first `k` cells of `row`.
pub open spec fn row_prefix_text(row: Seq<ColChar>, k: int) -> Seq<char>
    decreases k,
{
    if k <= 0 {
        Seq::empty()
    } else {
        row_prefix_text(row, k - 1) + cell_text(row[k - 1], prev_modifier(row, k - 1), next_modifier(row, k - 1))
    }
}

/// The text of a whole row, without its line ending.
pub open spec fn row_text(row: Seq<ColChar>) -> Seq<char> {
    row_prefix_text(row, row.len() as int)
}

/// The text of the first `k` rows, each followed by a carriage return and a newline.
pub open spec fn rows_text(m: ViewModel, k: int) -> Seq<char>
    decreases k,
{
    if k <= 0 {
        Seq::empty()
    } else {
        rows_text(m, k - 1) + row_text(m.row(k - 1)) + seq!['\r', '\n']
    }
}

/// The escape sequence that moves the cursor home and clears the screen.
pub open spec fn frame_header() -> Seq<char> {
    seq!['\x1b', '[', 'H', '\x1b', '[', 'J']
}

/// The escape sequence that clears from the cursor to the end of the screen.
pub open spec fn frame_footer() -> Seq<char> {
    seq!['\x1b', '[', 'J']
}

/// The whole serialized frame.
pub open spec fn frame_text(m: ViewModel) -> Seq<char> {
    frame_header() + rows_text(m, m.height as int) + frame_footer()
}

fn fill_cells(c: ColChar, n: usize) -> (v: Vec<ColChar>)
    ensures
        v@ == Seq::new(n as nat, |i: int| c),
{
    let mut v: Vec<ColChar> = Vec::new();
    let mut i: usize = 0;
    while i < n
        invariant
            i <= n,
            v@ == Seq::new(i as nat, |k: int| c),
        decreases n - i,
    {
        v.push(c);
        i = i + 1;
        assert(v@ =~= Seq::new(i as nat, |k: int| c));
    }
    v
}

impl View {
    /// Create a `View` of the given size, filled with `background_char`, that ignores
    /// positions outside it.
    pub fn new(width: usize, height: usize, background_char: ColChar) -> (v: Self)
        requires
            width * height <= usize::MAX,
            width <= i64::MAX,
            height <= i64::MAX,
        ensures
            v@ == (ViewModel {
                width: width as nat,
                height: height as nat,
                background_char,
                wrapping_mode: WrappingMode::Ignore,
                block_until_resized: false,
                cells: Seq::new((width * height) as nat, |i: int| background_char),
            }),
            v@.wf(),
    {
        View {
            width,
            height,
            background_char,
            wrapping_mode: WrappingMode::Ignore,
            block_until_resized: false,
            pixels: fill_cells(background_char, width * height),
        }
    }

    /// The view with another wrapping mode.
    pub fn with_wrapping_mode(self, wrapping_mode: WrappingMode) -> (v: Self)
        ensures
            v@ == (ViewModel { wrapping_mode, ..self@ }),
    {
        View { wrapping_mode, ..self }
    }

    /// The view with `block_until_resized` set.
    pub fn with_block_until_resized(self) -> (v: Self)
        ensures
            v@ == (ViewModel { block_until_resized: true, ..self@ }),
    {
        View { block_until_resized: true, ..self }
    }

    /// The width and height as a vector.
    pub fn size(&self) -> (s: Vec2D)
        requires
            self@.width <= i64::MAX,
            self@.height <= i64::MAX,
        ensures
            s == self@.size(),
    {
        Vec2D { x: self.width as i64, y: self.height as i64 }
    }

    /// The centre cell: half the size, rounded down.
    pub fn center(&self) -> (s: Vec2D)
        requires
            self@.width <= i64::MAX,
            self@.height <= i64::MAX,
        ensures
            s.x == self@.width / 2,
            s.y == self@.height / 2,
    {
        Vec2D { x: (self.width / 2) as i64, y: (self.height / 2) as i64 }
    }

    /// Overwrite every cell with `background_char`, resizing the cells to the current size.
    pub fn clear(&mut self)
        requires
            old(self)@.width * old(self)@.height <= usize::MAX,
        ensures
            final(self)@ == (ViewModel {
                cells: Seq::new((old(self)@.width * old(self)@.height) as nat, |i: int| old(self)@.background_char),
                ..old(self)@
            }),
    {
        self.pixels = fill_cells(self.background_char, self.width * self.height);
    }

    /// Draw an element onto the view.
    pub fn draw<E: CanDraw>(&mut self, element: &E)
        requires
            element.drawable(),
            accepts_all::<View>(old(self)@, element.pixels()),
        ensures
            final(self)@ == plot_all::<View>(old(self)@, element.pixels()),
    {
        element.draw_to(self);
    }
}

fn push_chars(s: &mut String, chars: &[char])
    ensures
        final(s)@ == old(s)@ + chars@,
{
    let ghost s0 = s@;
    let mut i: usize = 0;
    while i < chars.len()
        invariant
            i <= chars@.len(),
            s@ == s0 + chars@.take(i as int),
        decreases chars@.len() - i,
    {
        push_char(s, chars[i]);
        i = i + 1;
        assert(s@ =~= s0 + chars@.take(i as int));
    }
    assert(chars@.take(i as int) =~= chars@);
}

impl View {
    /// Serialize the view: the header, then each row's cells with their escape sequences
    /// elided between equal neighbours, each row ended by a carriage return and newline,
    /// then the footer.
    pub fn render(&self) -> (s: String)
        requires
            self@.wf(),
        ensures
            s@ == frame_text(self@),
    {
        let mut s = String::new();
        push_chars(&mut s, &['\x1b', '[', 'H', '\x1b', '[', 'J']);
        assert(s@ =~= frame_header());
        let w = self.width;
        let h = self.height;
        let mut y: usize = 0;
        while y < h
            invariant
                self@.wf(),
                w == self@.width,
                h == self@.height,
                y <= h,
                s@ == frame_header() + rows_text(self@, y as int),
            decreases h - y,
        {
            let ghost row = self@.row(y as int);
            let ghost before = s@;
            proof {
                assert(w * y <= w * h) by (nonlinear_arith)
                    requires
                        y < h,
                ;
                assert((y as int + 1) * w <= w * h) by (nonlinear_arith)
                    requires
                        y < h,
                ;
                assert((y as int + 1) * w == y * w + w) by (nonlinear_arith);
            }
            let start: usize = w * y;
            let mut x: usize = 0;
            while x < w
                invariant
                    self@.wf(),
                    w == self@.width,
                    h == self@.height,
                    y < h,
                    start == y * w,
                    (y + 1) * w == start + w,
                    start + w <= w * h,
                    x <= w,
                    row == self@.row(y as int),
                    row.len() == w,
                    s@ == before + row_prefix_text(row, x as int),
                decreases w - x,
            {
                let prev = if x > 0 {
                    Some(self.pixels[start + x - 1].modifier)
                } else {
                    None
                };
                let next = if x + 1 < w {
                    Some(self.pixels[start + x + 1].modifier)
                } else {
                    None
                };
                assert(self.pixels@ == self@.cells);
                assert(forall|k: int| 0 <= k < w ==> row[k] == self.pixels@[start + k]);
                assert(prev == prev_modifier(row, x as int));
                assert(next == next_modifier(row, x as int));
                self.pixels[start + x].display_with_prev_and_next(&mut s, prev, next);
                x = x + 1;
                assert(s@ =~= before + row_prefix_text(row, x as int));
            }
            push_char(&mut s, '\r');
            push_char(&mut s, '\n');
            y = y + 1;
            assert(s@ =~= frame_header() + rows_text(self@, y as int));
        }
        push_chars(&mut s, &['\x1b', '[', 'J']);
        s
    }
}

/// The characters of a row of cells, without their appearance.
pub open spec fn glyphs(row: Seq<ColChar>) -> Seq<char> {
    row.map_values(|c: ColChar| c.text_char)
}

proof fn lemma_uniform_row_prefix(row: Seq<ColChar>, m: Modifier, k: int)
    requires
        1 <= k < row.len(),
        forall|i: int| 0 <= i < row.len() ==> #[trigger] row[i].modifier == m,
    ensures
        row_prefix_text(row, k) == modifier_text(m) + glyphs(row.take(k)),
    decreases k,
{
    if k == 1 {
        assert(glyphs(row.take(1)) =~= seq![row[0].text_char]);
        assert(row_prefix_text(row, 0) == Seq::<char>::empty());
        assert(row_prefix_text(row, 1) =~= modifier_text(m) + glyphs(row.take(k)));
    } else {
        lemma_uniform_row_prefix(row, m, k - 1);
        assert(glyphs(row.take(k)) =~= glyphs(row.take(k - 1)).push(row[k - 1].text_char));
        assert(row_prefix_text(row, k) =~= modifier_text(m) + glyphs(row.take(k)));
    }
}

/// A non-empty row whose cells all share the modifier `m` serializes as exactly one
/// escape sequence for `m`, then the characters, then exactly one reset.
pub proof fn lemma_uniform_row_elision(row: Seq<ColChar>, m: Modifier)
    requires
        row.len() >= 1,
        forall|i: int| 0 <= i < row.len() ==> #[trigger] row[i].modifier == m,
    ensures
        row_text(row) == modifier_text(m) + glyphs(row) + modifier_text(Modifier::Coded(0)),
{
    let n = row.len() as int;
    if n == 1 {
        assert(glyphs(row) =~= seq![row[0].text_char]);
        assert(row_prefix_text(row, 0) == Seq::<char>::empty());
        assert(row_text(row) =~= modifier_text(m) + glyphs(row) + modifier_text(Modifier::Coded(0)));
    } else {
        lemma_uniform_row_prefix(row, m, n - 1);
        assert(row.take(n) =~= row);
        assert(glyphs(row.take(n)) =~= glyphs(row.take(n - 1)).push(row[n - 1].text_char));
        assert(row_text(row) =~= modifier_text(m) + glyphs(row) + modifier_text(Modifier::Coded(0)));
    }
}

proof fn lemma_rows_text_prefix(m: ViewModel, k: int, n: int)
    requires
        0 <= k < n,
    ensures
        exists|rest: Seq<char>| rows_text(m, n) == rows_text(m, k) + row_text(m.row(k)) + rest,
    decreases n - k,
{
    if k == n - 1 {
        assert(rows_text(m, n) =~= rows_text(m, k) + row_text(m.row(k)) + seq!['\r', '\n']);
    } else {
        lemma_rows_text_prefix(m, k, n - 1);
        let rest = choose|rest: Seq<char>| rows_text(m, n - 1) == rows_text(m, k) + row_text(m.row(k)) + rest;
        let rest2 = rest + row_text(m.row(n - 1)) + seq!['\r', '\n'];
        assert(rows_text(m, n) =~= rows_text(m, k) + row_text(m.row(k)) + rest2);
    }
}

proof fn lemma_row_text_prefix(row: Seq<ColChar>, k: int, n: int)
    requires
        0 <= k < n <= row.len(),
    ensures
        exists|rest: Seq<char>| row_prefix_text(row, n) == row_prefix_text(row, k) + cell_text(row[k], prev_modifier(row, k), next_modifier(row, k)) + rest,
    decreases n - k,
{
    if k == n - 1 {
        assert(row_prefix_text(row, n) =~= row_prefix_text(row, k) + cell_text(row[k], prev_modifier(row, k), next_modifier(row, k)) + Seq::<char>::empty());
    } else {
        lemma_row_text_prefix(row, k, n - 1);
        let rest = choose|rest: Seq<char>| row_prefix_text(row, n - 1) == row_prefix_text(row, k) + cell_text(row[k], prev_modifier(row, k), next_modifier(row, k)) + rest;
        let rest2 = rest + cell_text(row[n - 1], prev_modifier(row, n - 1), next_modifier(row, n - 1));
        assert(row_prefix_text(row, n) =~= row_prefix_text(row, k) + cell_text(row[k], prev_modifier(row, k), next_modifier(row, k)) + rest2);
    }
}

proof fn lemma_frame_split(m: ViewModel, x: int, y: int)
    requires
        m.wf(),
        0 <= x < m.width,
        0 <= y < m.height,
        m.row(y).len() == m.width,
    ensures
        exists|lead: Seq<char>, rest: Seq<char>|
            (lead == Seq::<char>::empty() || lead == modifier_text(m.row(y)[x].modifier)) && frame_text(m)
                == frame_header() + rows_text(m, y) + row_prefix_text(m.row(y), x) + lead + seq![m.row(y)[x].text_char] + rest,
{
    let w = m.width as int;
    let h = m.height as int;
    let row = m.row(y);
    let c = row[x];
    lemma_rows_text_prefix(m, y, h);
    let rest1 = choose|rest: Seq<char>| rows_text(m, h) == rows_text(m, y) + row_text(row) + rest;
    lemma_row_text_prefix(row, x, w);
    let rest2 = choose|rest: Seq<char>| row_prefix_text(row, w) == row_prefix_text(row, x) + cell_text(row[x], prev_modifier(row, x), next_modifier(row, x)) + rest;
    let prev = prev_modifier(row, x);
    let next = next_modifier(row, x);
    let lead = if prev == Some(c.modifier) { Seq::<char>::empty() } else { modifier_text(c.modifier) };
    let tail = if next == Some(c.modifier) { Seq::<char>::empty() } else { modifier_text(Modifier::Coded(0)) };
    assert(cell_text(c, prev, next) == lead + seq![c.text_char] + tail);
    let a = frame_header();
    let r1 = rows_text(m, y);
    let pre = row_prefix_text(row, x);
    let ch = seq![c.text_char];
    let mid = lead + ch;
    let cell = cell_text(c, prev, next);
    let t2 = tail + rest2;
    let t3 = t2 + rest1;
    let q = (r1 + pre) + mid;
    lemma_concat_associative(pre, mid, tail);
    lemma_concat_associative(pre + mid, tail, rest2);
    assert(row_text(row) == (pre + mid) + t2);
    lemma_concat_associative(r1, pre + mid, t2);
    lemma_concat_associative(r1, pre, mid);
    lemma_concat_associative(q, t2, rest1);
    assert(rows_text(m, h) == q + t3);
    lemma_concat_associative(a, q, t3);
    lemma_concat_associative(a + q, t3, frame_footer());
    assert(frame_text(m) == (a + q) + (t3 + frame_footer()));
    lemma_concat_associative(a, r1 + pre, mid);
    lemma_concat_associative(a, r1, pre);
    lemma_concat_associative((a + r1) + pre, lead, ch);
    assert(a + q == (((a + r1) + pre) + lead) + ch);
    let rest = t3 + frame_footer();
    assert(frame_text(m) == frame_header() + rows_text(m, y) + row_prefix_text(m.row(y), x) + lead + seq![m.row(y)[x].text_char] + rest);
}

/// After plotting `c` at a position that the `Wrap` or `Ignore` mode keeps, the serialized
/// frame holds `c`'s character right after the header, the rows above the target row, the
/// cells left of the target cell, and at most the escape sequence of `c`'s modifier.
pub proof fn lemma_plot_then_render(m: ViewModel, pos: Vec2D, c: ColChar)
    requires
        m.wf(),
        m.width > 0,
        m.height > 0,
        m.wrapping_mode == WrappingMode::Wrap || m.wrapping_mode == WrappingMode::Ignore,
        handled(m.wrapping_mode, pos, m.size()) is Some,
    ensures
        ({
            let after = view_plotted(m, pos, c);
            let p = handled(m.wrapping_mode, pos, m.size())->Some_0;
            &&& after.wf()
            &&& after.row(p.y as int)[p.x as int] == c
            &&& after.cells == m.cells.update(p.y * m.width + p.x, c)
            &&& forall|k: int| 0 <= k < m.cells.len() && k != p.y * m.width + p.x ==> after.cells[k] == m.cells[k]
            &&& exists|lead: Seq<char>, rest: Seq<char>|
                (lead == Seq::<char>::empty() || lead == modifier_text(c.modifier)) && frame_text(after)
                    == frame_header() + rows_text(after, p.y as int) + row_prefix_text(after.row(p.y as int), p.x as int)
                    + lead + seq![c.text_char] + rest
        }),
{
    let after = view_plotted(m, pos, c);
    let p = handled(m.wrapping_mode, pos, m.size())->Some_0;
    let w = m.width as int;
    let h = m.height as int;
    lemma_cell_index(p.x as int, p.y as int, w, h);
    assert(after.wf());
    let py = p.y as int;
    assert((py + 1) * w <= w * h && (py + 1) * w == py * w + w) by (nonlinear_arith)
        requires
            0 <= py < h,
            0 < w,
    ;
    assert(after.row(py)[p.x as int] == c);
    lemma_frame_split(after, p.x as int, py);
}

/// Relies on `terminal_size::terminal_size`: the columns and rows of the terminal attached
/// to stdout, stderr or stdin, or `None` when there is none; it reports a size only when
/// both are non-zero. Which size comes back depends on the environment.
#[verifier::external_body]
fn terminal_size_now() -> (r: Option<(u16, u16)>)
    ensures
        r matches Some((cols, rows)) ==> cols > 0 && rows > 0,
{
    terminal_size::terminal_size().map(|(w, h)| (w.0, h.0))
}

/// The terminal's size as columns and rows, or `None` when there is no terminal.
pub fn get_terminal_size_as_vec2d() -> (r: Option<Vec2D>)
    ensures
        r matches Some(v) ==> 1 <= v.x <= 0xffff && 1 <= v.y <= 0xffff,
{
    match terminal_size_now() {
        Some((cols, rows)) => Some(Vec2D { x: cols as i64, y: rows as i64 }),
        None => None,
    }
}

/// The size a view gets in a terminal of `cols` x `rows` when `empty_row_count` rows, plus
/// the one the cursor rests on, are left below it.
pub open spec fn fitted_size(cols: u16, rows: u16, empty_row_count: i64) -> (nat, nat) {
    let h = rows - empty_row_count - 1;
    (cols as nat, if h > 0 { h as nat } else { 0 })
}

/// A `View` that resizes itself to the terminal whenever it is updated.
#[derive(Debug, Clone)]
pub struct ScaleFitView {
    pub view: View,
    /// How many rows to leave clear below the view.
    pub empty_row_count: i64,
}

impl ScaleFitView {
    /// The size of a view that fits a terminal of `cols` x `rows`.
    pub fn fit_size(cols: u16, rows: u16, empty_row_count: i64) -> (r: Vec2D)
        requires
            empty_row_count >= 0,
        ensures
            (r.x as nat, r.y as nat) == fitted_size(cols, rows, empty_row_count),
            r.x >= 0,
            r.y >= 0,
    {
        let h: i64 = rows as i64 - empty_row_count - 1;
        Vec2D { x: cols as i64, y: if h > 0 { h } else { 0 } }
    }

    /// The size the view should have in the current terminal, or `None` when there is no
    /// terminal.
    pub fn intended_size(&self) -> (r: Option<Vec2D>)
        requires
            self.empty_row_count >= 0,
        ensures
            r matches Some(v) ==> exists|cols: u16, rows: u16|
                cols > 0 && rows > 0 && (v.x as nat, v.y as nat) == #[trigger] fitted_size(cols, rows, self.empty_row_count),
    {
        match terminal_size_now() {
            Some((cols, rows)) => Some(Self::fit_size(cols, rows, self.empty_row_count)),
            None => None,
        }
    }

    /// Resize the view to a terminal of `cols` x `rows` and clear it.
    pub fn update_to(&mut self, cols: u16, rows: u16)
        requires
            old(self).empty_row_count >= 0,
        ensures
            final(self).empty_row_count == old(self).empty_row_count,
            ({
                let (w, h) = fitted_size(cols, rows, old(self).empty_row_count);
                final(self).view@ == (ViewModel {
                    width: w,
                    height: h,
                    cells: Seq::new(w * h, |i: int| old(self).view@.background_char),
                    ..old(self).view@
                })
            }),
            final(self).view@.wf(),
    {
        let size = Self::fit_size(cols, rows, self.empty_row_count);
        assert(size.x * size.y <= 0xffff * 0xffff) by (nonlinear_arith)
            requires
                0 <= size.x <= 0xffff,
                0 <= size.y <= 0xffff,
        ;
        self.view.width = size.x as usize;
        self.view.height = size.y as usize;
        self.view.clear();
    }

    /// Resize the view to the terminal and clear it; an error when no terminal size can be read.
    pub fn update(&mut self) -> (r: Result<(), String>)
        requires
            old(self).empty_row_count >= 0,
        ensures
            final(self).empty_row_count == old(self).empty_row_count,
            r is Err ==> final(self).view@ == old(self).view@,
            r is Ok ==> exists|cols: u16, rows: u16| cols > 0 && rows > 0 && {
                let (w, h) = #[trigger] fitted_size(cols, rows, old(self).empty_row_count);
                final(self).view@ == (ViewModel {
                    width: w,
                    height: h,
                    cells: Seq::new(w * h, |i: int| old(self).view@.background_char),
                    ..old(self).view@
                })
            },
            final(self).view@.wf() || r is Err,
    {
        match terminal_size_now() {
            Some((cols, rows)) => {
                self.update_to(cols, rows);
                Ok(())
            },
            None => Err(String::from_str("Couldn't get terminal size")),
        }
    }

    /// A view sized to the terminal, leaving one empty row below it, filled with `background_char`.
    pub fn new(background_char: ColChar) -> (r: Result<Self, String>)
        ensures
            r matches Ok(v) ==> v.empty_row_count == 1 && v.view@.wf() && v.view@.background_char == background_char
                && v.view@.wrapping_mode == WrappingMode::Ignore && v.view@.cells == Seq::new(
                v.view@.width * v.view@.height,
                |i: int| background_char,
            ),
    {
        let mut tmp = ScaleFitView { view: View::new(0, 0, background_char), empty_row_count: 1 };
        match tmp.update() {
            Ok(()) => Ok(tmp),
            Err(e) => Err(e),
        }
    }

    /// The view with another number of empty rows below it.
    pub fn with_empty_row_count(self, empty_row_count: i64) -> (r: Self)
        ensures
            r.empty_row_count == empty_row_count,
            r.view@ == self.view@,
    {
        ScaleFitView { empty_row_count, ..self }
    }
}

impl Canvas for ScaleFitView {
    open spec fn accepts(model: ViewModel, pos: Vec2D) -> bool {
        <View as Canvas>::accepts(model, pos)
    }

    open spec fn plotted(model: ViewModel, pos: Vec2D, c: ColChar) -> ViewModel {
        view_plotted(model, pos, c)
    }

    proof fn lemma_plotted_accepts(model: ViewModel, pos: Vec2D, c: ColChar, q: Vec2D) {
        <View as Canvas>::lemma_plotted_accepts(model, pos, c, q);
    }

    fn plot(&mut self, pos: Vec2D, c: ColChar) {
        self.view.plot(pos, c);
    }
}

impl HasView for ScaleFitView {
    type V = ViewModel;

    open spec fn view(&self) -> ViewModel {
        self.view@
    }
}

/// Each pixel turned into two side by side: at double its x, and one to the right of that.
pub open spec fn doubled(px: Seq<Pixel>) -> Seq<Pixel>
    decreases px.len(),
{
    if px.len() == 0 {
        Seq::empty()
    } else {
        let p = px.last();
        doubled(px.drop_last()) + seq![
            Pixel { pos: Vec2D { x: (2 * p.pos.x) as i64, y: p.pos.y }, fill_char: p.fill_char },
            Pixel { pos: Vec2D { x: (2 * p.pos.x + 1) as i64, y: p.pos.y }, fill_char: p.fill_char },
        ]
    }
}

/// Every pixel's x can be doubled, plus one, without overflow.
pub open spec fn doublable(px: Seq<Pixel>) -> bool {
    forall|i: int| 0 <= i < px.len() ==> -0x2000_0000_0000_0000 <= #[trigger] px[i].pos.x <= 0x2000_0000_0000_0000
}

impl View {
    /// Draw an element with every pixel doubled in width, which makes cells closer to square.
    pub fn draw_double_width<E: CanDraw>(&mut self, element: &E)
        requires
            element.drawable(),
            doublable(element.pixels()),
            accepts_all::<View>(old(self)@, doubled(element.pixels())),
        ensures
            final(self)@ == plot_all::<View>(old(self)@, doubled(element.pixels())),
    {
        let mut recorded = crate::containers::PixelContainer::new();
        recorded.draw(element);
        assert(recorded@ =~= element.pixels());
        let mut out: Vec<Pixel> = Vec::new();
        let mut i: usize = 0;
        while i < recorded.pixels.len()
            invariant
                i <= recorded@.len(),
                recorded@ == element.pixels(),
                doublable(recorded@),
                out@ == doubled(recorded@.take(i as int)),
            decreases recorded@.len() - i,
        {
            let p = recorded.pixels[i];
            assert(-0x2000_0000_0000_0000 <= recorded@[i as int].pos.x <= 0x2000_0000_0000_0000);
            out.push(Pixel { pos: Vec2D { x: 2 * p.pos.x, y: p.pos.y }, fill_char: p.fill_char });
            out.push(Pixel { pos: Vec2D { x: 2 * p.pos.x + 1, y: p.pos.y }, fill_char: p.fill_char });
            proof {
                assert(recorded@.take(i + 1).drop_last() =~= recorded@.take(i as int));
            }
            i = i + 1;
            assert(out@ =~= doubled(recorded@.take(i as int)));
        }
        assert(recorded@.take(i as int) =~= recorded@);
        plot_pixels(self, &out);
    }
}

} // verus!
