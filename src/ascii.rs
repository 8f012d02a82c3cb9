use vstd::prelude::*;
use crate::canvas::{Canvas, CanDraw, Pixel, plot_pixels};
use crate::colchar::{ColChar, Modifier, char_vec};
use crate::vec2d::{Vec2D, COORD_LIMIT, in_coord_range};
use vstd::string::{StrSliceExecFns, StringExecFns};

verus! {

/// Where text sits relative to its anchor position along one axis.
#[derive(Debug, Clone, Copy, PartialEq, Eq, Structural)]
pub enum TextAlign {
    /// The text starts at the anchor.
    Begin,
    /// The text is centred on the anchor.
    Centered,
    /// The text ends at the anchor.
    End,
}

/// Half of `n`, rounded toward zero.
pub open spec fn half_toward_zero(n: int) -> int {
    if n >= 0 {
        n / 2
    } else {
        -((-n) / 2)
    }
}

/// The coordinate where text of length `len` starts when aligned at `pos`.
pub open spec fn aligned(align: TextAlign, pos: int, len: int) -> int {
    match align {
        TextAlign::Begin => pos,
        TextAlign::Centered => pos - half_toward_zero(len),
        TextAlign::End => pos - len,
    }
}

impl TextAlign {
    /// The start coordinate of text of length `text_length` aligned at `pos`.
    pub fn apply_to(&self, pos: i64, text_length: i64) -> (r: i64)
        requires
            i64::MIN <= aligned(*self, pos as int, text_length as int) <= i64::MAX,
            text_length > i64::MIN,
        ensures
            r == aligned(*self, pos as int, text_length as int),
    {
        match self {
            TextAlign::Begin => pos,
            TextAlign::Centered => {
                let half: i64 = if text_length >= 0 { text_length / 2 } else { -((-text_length) / 2) };
                pos - half
            },
            TextAlign::End => pos - text_length,
        }
    }
}

/// Alignment along both axes.
#[derive(Debug, Clone, Copy, PartialEq, Eq, Structural)]
pub struct TextAlign2D {
    /// Horizontal alignment; `Begin` is left.
    pub x: TextAlign,
    /// Vertical alignment; `Begin` is top.
    pub y: TextAlign,
}

impl TextAlign2D {
    /// Create an alignment from its horizontal and vertical parts.
    pub fn new(x_align: TextAlign, y_align: TextAlign) -> (r: Self)
        ensures
            r.x == x_align,
            r.y == y_align,
    {
        TextAlign2D { x: x_align, y: y_align }
    }

    /// Centred on both axes.
    pub fn centered() -> (r: Self)
        ensures
            r.x == TextAlign::Centered,
            r.y == TextAlign::Centered,
    {
        TextAlign2D { x: TextAlign::Centered, y: TextAlign::Centered }
    }

    /// The top-left corner of a block of size `text_block_size` aligned at `pos`.
    pub fn apply_to(&self, pos: Vec2D, text_block_size: Vec2D) -> (r: Vec2D)
        requires
            i64::MIN <= aligned(self.x, pos.x as int, text_block_size.x as int) <= i64::MAX,
            i64::MIN <= aligned(self.y, pos.y as int, text_block_size.y as int) <= i64::MAX,
            text_block_size.x > i64::MIN,
            text_block_size.y > i64::MIN,
        ensures
            r.x == aligned(self.x, pos.x as int, text_block_size.x as int),
            r.y == aligned(self.y, pos.y as int, text_block_size.y as int),
    {
        Vec2D { x: self.x.apply_to(pos.x, text_block_size.x), y: self.y.apply_to(pos.y, text_block_size.y) }
    }
}

/// The pixels of the first `k` characters of `content` written from column `x0` on row `y`;
/// spaces are transparent and plot nothing.
pub open spec fn text_pixels(content: Seq<char>, x0: int, y: int, modifier: Modifier, k: int) -> Seq<Pixel>
    decreases k,
{
    if k <= 0 {
        Seq::empty()
    } else if content[k - 1] == ' ' {
        text_pixels(content, x0, y, modifier, k - 1)
    } else {
        text_pixels(content, x0, y, modifier, k - 1).push(
            Pixel { pos: Vec2D { x: (x0 + k - 1) as i64, y: y as i64 }, fill_char: ColChar { text_char: content[k - 1], modifier } },
        )
    }
}

/// A single line of text.
#[derive(Debug, Clone)]
pub struct Text {
    pub pos: Vec2D,
    pub content: String,
    pub align: TextAlign,
    pub modifier: Modifier,
}

impl Text {
    /// Create left-aligned text; the content must be a single line.
    pub fn new(pos: Vec2D, content: &str, modifier: Modifier) -> (t: Self)
        requires
            !content@.contains('\n'),
        ensures
            t.pos == pos,
            t.content@ == content@,
            t.align == TextAlign::Begin,
            t.modifier == modifier,
    {
        Text { pos, content: String::from_str(content), align: TextAlign::Begin, modifier }
    }

    /// The text with another alignment.
    pub fn with_align(self, align: TextAlign) -> (t: Self)
        ensures
            t.pos == self.pos,
            t.content@ == self.content@,
            t.align == align,
            t.modifier == self.modifier,
    {
        Text { align, ..self }
    }
}

impl CanDraw for Text {
    open spec fn drawable(&self) -> bool {
        in_coord_range(self.pos) && self.content@.len() <= COORD_LIMIT
    }

    open spec fn pixels(&self) -> Seq<Pixel> {
        let len = self.content@.len() as int;
        text_pixels(self.content@, aligned(self.align, self.pos.x as int, len), self.pos.y as int, self.modifier, len)
    }

    fn draw_to<C: Canvas>(&self, canvas: &mut C) {
        let chars = char_vec(self.content.as_str());
        let x0 = self.align.apply_to(self.pos.x, chars.len() as i64);
        let mut px: Vec<Pixel> = Vec::new();
        push_text_row(&mut px, &chars, x0, self.pos.y, self.modifier);
        assert(px@ =~= self.pixels());
        plot_pixels(canvas, &px);
    }
}

/// The pieces of `s` between newlines (a trailing newline leaves an empty last piece).
pub open spec fn split_newlines(s: Seq<char>) -> Seq<Seq<char>>
    decreases s.len(),
{
    if s.len() == 0 {
        seq![Seq::empty()]
    } else {
        let r = split_newlines(s.drop_last());
        if s.last() == '\n' {
            r.push(Seq::empty())
        } else {
            r.update(r.len() - 1, r.last().push(s.last()))
        }
    }
}

/// `s` without its leading newlines.
pub open spec fn trim_leading_newlines(s: Seq<char>) -> Seq<char>
    decreases s.len(),
{
    if s.len() > 0 && s[0] == '\n' {
        trim_leading_newlines(s.drop_first())
    } else {
        s
    }
}

/// The number of lines of `s`: a final newline does not start another line.
pub open spec fn line_count(s: Seq<char>) -> int {
    if s.len() == 0 {
        0
    } else if s.last() == '\n' {
        split_newlines(s).len() - 1
    } else {
        split_newlines(s).len() as int
    }
}

/// The length of a line without the carriage return of a `\r\n` ending.
pub open spec fn line_width(piece: Seq<char>, ended: bool) -> int {
    if ended && piece.len() > 0 && piece.last() == '\r' {
        piece.len() - 1
    } else {
        piece.len() as int
    }
}

/// The widest of the first `k` lines of `s`.
pub open spec fn max_line_width(s: Seq<char>, k: int) -> int
    decreases k,
{
    if k <= 0 {
        0
    } else {
        let pieces = split_newlines(s);
        let w = line_width(pieces[k - 1], k < pieces.len());
        let m = max_line_width(s, k - 1);
        if w > m {
            w
        } else {
            m
        }
    }
}

/// The pixels of the first `k` pieces of `texture`, piece `y` written from `(x0, y0 + y)`.
pub open spec fn sprite_pixels(pieces: Seq<Seq<char>>, x0: int, y0: int, modifier: Modifier, k: int) -> Seq<Pixel>
    decreases k,
{
    if k <= 0 {
        Seq::empty()
    } else {
        sprite_pixels(pieces, x0, y0, modifier, k - 1) + text_pixels(pieces[k - 1], x0, y0 + k - 1, modifier, pieces[k - 1].len() as int)
    }
}

fn push_text_row(px: &mut Vec<Pixel>, piece: &Vec<char>, x0: i64, row: i64, modifier: Modifier)
    requires
        piece@.len() <= COORD_LIMIT,
        -4 * COORD_LIMIT <= x0 <= COORD_LIMIT,
    ensures
        final(px)@ == old(px)@ + text_pixels(piece@, x0 as int, row as int, modifier, piece@.len() as int),
{
    let mut out: Vec<Pixel> = Vec::new();
    let n = piece.len();
    let mut i: usize = 0;
    while i < n
        invariant
            n == piece@.len(),
            i <= n,
            n <= COORD_LIMIT,
            -4 * COORD_LIMIT <= x0 <= COORD_LIMIT,
            out@ == text_pixels(piece@, x0 as int, row as int, modifier, i as int),
        decreases n - i,
    {
        let c = piece[i];
        if c != ' ' {
            out.push(Pixel { pos: Vec2D { x: x0 + i as i64, y: row }, fill_char: ColChar { text_char: c, modifier: modifier } });
        }
        i = i + 1;
    }
    px.append(&mut out);
}

/// Multi-line ASCII art.
#[derive(Debug, Clone)]
pub struct Sprite {
    pub pos: Vec2D,
    pub texture: String,
    pub modifier: Modifier,
    pub align: TextAlign2D,
}

proof fn lemma_trim_skip(s: Seq<char>, i: int)
    requires
        0 <= i <= s.len(),
        forall|k: int| 0 <= k < i ==> s[k] == '\n',
    ensures
        trim_leading_newlines(s) == trim_leading_newlines(s.skip(i)),
    decreases i,
{
    if i > 0 {
        lemma_trim_skip(s.drop_first(), i - 1);
        assert(s.drop_first().skip(i - 1) =~= s.skip(i));
    } else {
        assert(s.skip(0) =~= s);
    }
}

fn split_pieces(s: &Vec<char>) -> (r: Vec<Vec<char>>)
    ensures
        r@.len() == split_newlines(s@).len(),
        forall|k: int| 0 <= k < r@.len() ==> (#[trigger] r@[k])@ == split_newlines(s@)[k],
{
    let mut parts: Vec<Vec<char>> = Vec::new();
    let mut cur: Vec<char> = Vec::new();
    let mut i: usize = 0;
    assert(s@.take(0) =~= Seq::<char>::empty());
    while i < s.len()
        invariant
            i <= s@.len(),
            parts@.len() + 1 == split_newlines(s@.take(i as int)).len(),
            forall|k: int| 0 <= k < parts@.len() ==> (#[trigger] parts@[k])@ == split_newlines(s@.take(i as int))[k],
            cur@ == split_newlines(s@.take(i as int)).last(),
        decreases s@.len() - i,
    {
        let c = s[i];
        let ghost before = split_newlines(s@.take(i as int));
        proof {
            assert(s@.take(i + 1).drop_last() =~= s@.take(i as int));
        }
        if c == '\n' {
            parts.push(cur);
            cur = Vec::new();
        } else {
            cur.push(c);
        }
        i = i + 1;
        proof {
            let after = split_newlines(s@.take(i as int));
            assert forall|k: int| 0 <= k < parts@.len() implies (#[trigger] parts@[k])@ == after[k] by {
                if k < before.len() - 1 {
                    assert(after[k] == before[k]);
                }
            }
        }
    }
    parts.push(cur);
    proof {
        assert(s@.take(i as int) =~= s@);
    }
    parts
}

proof fn lemma_split_len(s: Seq<char>)
    ensures
        1 <= split_newlines(s).len() <= s.len() + 1,
        forall|k: int| 0 <= k < split_newlines(s).len() ==> (#[trigger] split_newlines(s)[k]).len() <= s.len(),
    decreases s.len(),
{
    if s.len() > 0 {
        lemma_split_len(s.drop_last());
    }
}

/// `texture` without its leading newlines.
fn trimmed_texture(texture: &str) -> (r: String)
    ensures
        r@ == trim_leading_newlines(texture@),
{
    let chars = char_vec(texture);
    let mut i: usize = 0;
    while i < chars.len() && chars[i] == '\n'
        invariant
            i <= chars@.len(),
            chars@ == texture@,
            forall|k: int| 0 <= k < i ==> chars@[k] == '\n',
        decreases chars@.len() - i,
    {
        i = i + 1;
    }
    proof {
        lemma_trim_skip(texture@, i as int);
        let rest = texture@.skip(i as int);
        assert(!(rest.len() > 0 && rest[0] == '\n'));
    }
    let trimmed = texture.substring_char(i, chars.len());
    String::from_str(trimmed)
}

impl Sprite {
    /// Create a sprite; newlines at the start of the texture are removed.
    pub fn new(pos: Vec2D, texture: &str, modifier: Modifier) -> (r: Self)
        ensures
            r.pos == pos,
            r.texture@ == trim_leading_newlines(texture@),
            r.modifier == modifier,
            r.align == (TextAlign2D { x: TextAlign::Begin, y: TextAlign::Begin }),
    {
        Sprite {
            pos,
            texture: trimmed_texture(texture),
            modifier,
            align: TextAlign2D { x: TextAlign::Begin, y: TextAlign::Begin },
        }
    }

    /// The sprite with another alignment.
    pub fn with_align(self, align: TextAlign2D) -> (r: Self)
        ensures
            r.pos == self.pos,
            r.texture@ == self.texture@,
            r.modifier == self.modifier,
            r.align == align,
    {
        Sprite { align, ..self }
    }
}

impl CanDraw for Sprite {
    open spec fn drawable(&self) -> bool {
        in_coord_range(self.pos) && self.texture@.len() <= COORD_LIMIT
    }

    open spec fn pixels(&self) -> Seq<Pixel> {
        let t = self.texture@;
        let pieces = split_newlines(t);
        let w = max_line_width(t, line_count(t));
        let h = line_count(t);
        sprite_pixels(
            pieces,
            aligned(self.align.x, self.pos.x as int, w),
            aligned(self.align.y, self.pos.y as int, h),
            self.modifier,
            pieces.len() as int,
        )
    }

    fn draw_to<C: Canvas>(&self, canvas: &mut C) {
        let t = char_vec(self.texture.as_str());
        let pieces = split_pieces(&t);
        proof {
            lemma_split_len(t@);
        }
        let count: usize = if t.len() == 0 {
            0
        } else if t[t.len() - 1] == '\n' {
            pieces.len() - 1
        } else {
            pieces.len()
        };
        let mut width: usize = 0;
        let mut k: usize = 0;
        while k < count
            invariant
                k <= count,
                count == line_count(t@),
                count <= pieces@.len(),
                pieces@.len() == split_newlines(t@).len(),
                forall|j: int| 0 <= j < pieces@.len() ==> (#[trigger] pieces@[j])@ == split_newlines(t@)[j],
                forall|j: int| 0 <= j < pieces@.len() ==> (#[trigger] split_newlines(t@)[j]).len() <= t@.len(),
                width == max_line_width(t@, k as int),
                width <= t@.len(),
            decreases count - k,
        {
            let piece = &pieces[k];
            assert(piece@ == split_newlines(t@)[k as int]);
            let w: usize = if k + 1 < pieces.len() && piece.len() > 0 && piece[piece.len() - 1] == '\r' {
                piece.len() - 1
            } else {
                piece.len()
            };
            if w > width {
                width = w;
            }
            k = k + 1;
        }
        assert(count <= COORD_LIMIT + 1);
        let x0 = self.align.x.apply_to(self.pos.x, width as i64);
        let y0 = self.align.y.apply_to(self.pos.y, count as i64);
        let mut px: Vec<Pixel> = Vec::new();
        let mut y: usize = 0;
        while y < pieces.len()
            invariant
                y <= pieces@.len(),
                pieces@.len() <= t@.len() + 1,
                t@.len() <= COORD_LIMIT,
                -COORD_LIMIT - COORD_LIMIT <= x0 <= COORD_LIMIT,
                -COORD_LIMIT - COORD_LIMIT - 1 <= y0 <= COORD_LIMIT,
                forall|j: int| 0 <= j < pieces@.len() ==> (#[trigger] pieces@[j])@ == split_newlines(t@)[j],
                forall|j: int| 0 <= j < pieces@.len() ==> (#[trigger] split_newlines(t@)[j]).len() <= t@.len(),
                px@ == sprite_pixels(split_newlines(t@), x0 as int, y0 as int, self.modifier, y as int),
            decreases pieces@.len() - y,
        {
            let piece = &pieces[y];
            assert(piece@ == split_newlines(t@)[y as int]);
            let row: i64 = y0 + y as i64;
            push_text_row(&mut px, piece, x0, row, self.modifier);
            y = y + 1;
        }
        plot_pixels(canvas, &px);
    }
}

/// A sprite that cycles through several textures.
#[derive(Debug, Clone)]
pub struct AnimatedSprite {
    pub pos: Vec2D,
    pub frames: Vec<String>,
    /// The index of the frame shown; `set_current_frame` and `next_frame` keep it in range.
    pub current_frame: usize,
    pub modifier: Modifier,
    pub align: TextAlign2D,
}

impl AnimatedSprite {
    /// The index of the frame shown.
    pub open spec fn frame(&self) -> int {
        self.current_frame as int
    }

    /// Create an animated sprite showing its first frame; newlines at the start of each
    /// frame are removed.
    pub fn new(pos: Vec2D, frames: &[&str], modifier: Modifier) -> (r: Self)
        ensures
            r.pos == pos,
            r.frames@.len() == frames@.len(),
            forall|i: int| 0 <= i < frames@.len() ==> (#[trigger] r.frames@[i])@ == trim_leading_newlines(frames@[i]@),
            r.frame() == 0,
            r.modifier == modifier,
            r.align == (TextAlign2D { x: TextAlign::Begin, y: TextAlign::Begin }),
    {
        let mut processed: Vec<String> = Vec::new();
        let mut i: usize = 0;
        while i < frames.len()
            invariant
                i <= frames@.len(),
                processed@.len() == i,
                forall|k: int| 0 <= k < i ==> (#[trigger] processed@[k])@ == trim_leading_newlines(frames@[k]@),
            decreases frames@.len() - i,
        {
            processed.push(trimmed_texture(frames[i]));
            i = i + 1;
        }
        AnimatedSprite {
            pos,
            frames: processed,
            current_frame: 0,
            modifier,
            align: TextAlign2D { x: TextAlign::Begin, y: TextAlign::Begin },
        }
    }

    /// The index of the frame shown.
    pub fn get_current_frame(&self) -> (r: usize)
        ensures
            r == self.frame(),
    {
        self.current_frame
    }

    /// Show frame `value`, wrapped around the number of frames.
    pub fn set_current_frame(&mut self, value: usize)
        requires
            old(self).frames@.len() > 0,
        ensures
            final(self).frame() == (value as int) % (old(self).frames@.len() as int),
            final(self).frames@ == old(self).frames@,
            final(self).pos == old(self).pos,
            final(self).modifier == old(self).modifier,
            final(self).align == old(self).align,
    {
        self.current_frame = value % self.frames.len();
    }

    /// Show the next frame, going back to the first after the last.
    pub fn next_frame(&mut self)
        ensures
            final(self).frame() == (if old(self).frame() + 1 >= old(self).frames@.len() { 0 } else { old(self).frame() + 1 }),
            final(self).frames@ == old(self).frames@,
            final(self).pos == old(self).pos,
            final(self).modifier == old(self).modifier,
            final(self).align == old(self).align,
    {
        if self.current_frame >= self.frames.len() || self.current_frame + 1 >= self.frames.len() {
            self.current_frame = 0;
        } else {
            self.current_frame = self.current_frame + 1;
        }
    }
}

impl CanDraw for AnimatedSprite {
    open spec fn drawable(&self) -> bool {
        &&& 0 <= self.frame() < self.frames@.len()
        &&& in_coord_range(self.pos)
        &&& self.frames@[self.frame()]@.len() <= COORD_LIMIT
    }

    open spec fn pixels(&self) -> Seq<Pixel> {
        (Sprite { pos: self.pos, texture: self.frames@[self.frame()], modifier: self.modifier, align: self.align }).pixels()
    }

    fn draw_to<C: Canvas>(&self, canvas: &mut C) {
        let sprite = Sprite {
            pos: self.pos,
            texture: self.frames[self.current_frame].clone(),
            modifier: self.modifier,
            align: self.align,
        };
        sprite.draw_to(canvas);
    }
}

} // verus!
