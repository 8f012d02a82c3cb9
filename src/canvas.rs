use vstd::prelude::*;
use crate::colchar::ColChar;
use crate::vec2d::Vec2D;

verus! {

/// A single coloured character at a position.
#[derive(Debug, Clone, Copy, PartialEq, Eq, Structural, Hash)]
pub struct Pixel {
    pub pos: Vec2D,
    pub fill_char: ColChar,
}

impl Pixel {
    /// Create a new `Pixel`.
    pub fn new(pos: Vec2D, fill_char: ColChar) -> (p: Self)
        ensures
            p.pos == pos,
            p.fill_char == fill_char,
    {
        Pixel { pos, fill_char }
    }
}

/// Something that coloured characters can be plotted onto. Its state is described by its
/// view; `plotted` says what one plot does to that state.
pub trait Canvas: Sized + vstd::view::View {
    /// A plot of `pos` is within this canvas's contract.
    spec fn accepts(model: Self::V, pos: Vec2D) -> bool;

    /// The state after plotting `c` at `pos`.
    spec fn plotted(model: Self::V, pos: Vec2D, c: ColChar) -> Self::V;

    /// Plotting never changes which positions are accepted.
    proof fn lemma_plotted_accepts(model: Self::V, pos: Vec2D, c: ColChar, q: Vec2D)
        ensures
            Self::accepts(Self::plotted(model, pos, c), q) == Self::accepts(model, q),
    ;

    /// Plot `c` at `pos`.
    fn plot(&mut self, pos: Vec2D, c: ColChar)
        requires
            Self::accepts(old(self)@, pos),
        ensures
            final(self)@ == Self::plotted(old(self)@, pos, c),
    ;
}

/// The state after plotting each pixel of `px` in order.
pub open spec fn plot_all<C: Canvas>(model: C::V, px: Seq<Pixel>) -> C::V
    decreases px.len(),
{
    if px.len() == 0 {
        model
    } else {
        C::plotted(plot_all::<C>(model, px.drop_last()), px.last().pos, px.last().fill_char)
    }
}

/// Every pixel of `px` is at a position the canvas accepts.
pub open spec fn accepts_all<C: Canvas>(model: C::V, px: Seq<Pixel>) -> bool {
    forall|i: int| 0 <= i < px.len() ==> #[trigger] C::accepts(model, px[i].pos)
}

/// Plotting a sequence of pixels never changes which positions are accepted.
pub proof fn lemma_plot_all_accepts<C: Canvas>(model: C::V, px: Seq<Pixel>, q: Vec2D)
    ensures
        C::accepts(plot_all::<C>(model, px), q) == C::accepts(model, q),
    decreases px.len(),
{
    if px.len() > 0 {
        lemma_plot_all_accepts::<C>(model, px.drop_last(), q);
        C::lemma_plotted_accepts(plot_all::<C>(model, px.drop_last()), px.last().pos, px.last().fill_char, q);
    }
}

/// Plotting `a` then `b` is plotting `a + b`.
pub proof fn lemma_plot_all_concat<C: Canvas>(model: C::V, a: Seq<Pixel>, b: Seq<Pixel>)
    ensures
        plot_all::<C>(plot_all::<C>(model, a), b) == plot_all::<C>(model, a + b),
    decreases b.len(),
{
    if b.len() > 0 {
        lemma_plot_all_concat::<C>(model, a, b.drop_last());
        assert((a + b).drop_last() =~= a + b.drop_last());
    } else {
        assert(a + b =~= a);
    }
}

/// Plot every pixel of `px` onto `canvas`, in order.
pub fn plot_pixels<C: Canvas>(canvas: &mut C, px: &Vec<Pixel>)
    requires
        accepts_all::<C>(old(canvas)@, px@),
    ensures
        final(canvas)@ == plot_all::<C>(old(canvas)@, px@),
{
    let ghost start = canvas@;
    let mut i: usize = 0;
    while i < px.len()
        invariant
            i <= px@.len(),
            canvas@ == plot_all::<C>(start, px@.take(i as int)),
            accepts_all::<C>(start, px@),
        decreases px@.len() - i,
    {
        proof {
            lemma_plot_all_accepts::<C>(start, px@.take(i as int), px@[i as int].pos);
        }
        canvas.plot(px[i].pos, px[i].fill_char);
        proof {
            assert(px@.take(i + 1).drop_last() =~= px@.take(i as int));
        }
        i = i + 1;
    }
    proof {
        assert(px@.take(i as int) =~= px@);
    }
}

/// An element that can be drawn onto any canvas as a fixed sequence of pixels.
pub trait CanDraw {
    /// The element lies where its rasterization is exact (no coordinate overflows).
    spec fn drawable(&self) -> bool;

    /// The pixels the element plots, in order.
    spec fn pixels(&self) -> Seq<Pixel>;

    /// Plot the element's pixels onto `canvas`.
    fn draw_to<C: Canvas>(&self, canvas: &mut C)
        requires
            self.drawable(),
            accepts_all::<C>(old(canvas)@, self.pixels()),
        ensures
            final(canvas)@ == plot_all::<C>(old(canvas)@, self.pixels()),
    ;
}

/// The pixels that colour each point of `points` with `c`.
pub open spec fn pixels_of(points: Seq<Vec2D>, c: ColChar) -> Seq<Pixel> {
    points.map_values(|p: Vec2D| Pixel { pos: p, fill_char: c })
}

/// Pair each point with the same coloured character.
pub fn points_to_pixels(points: &Vec<Vec2D>, fill_char: ColChar) -> (r: Vec<Pixel>)
    ensures
        r@ == pixels_of(points@, fill_char),
{
    let mut r: Vec<Pixel> = Vec::new();
    let mut i: usize = 0;
    while i < points.len()
        invariant
            i <= points@.len(),
            r@ == pixels_of(points@.take(i as int), fill_char),
        decreases points@.len() - i,
    {
        r.push(Pixel { pos: points[i], fill_char });
        i = i + 1;
        assert(r@ =~= pixels_of(points@.take(i as int), fill_char));
    }
    assert(points@.take(i as int) =~= points@);
    r
}

impl CanDraw for Pixel {
    open spec fn drawable(&self) -> bool {
        true
    }

    open spec fn pixels(&self) -> Seq<Pixel> {
        seq![*self]
    }

    fn draw_to<C: Canvas>(&self, canvas: &mut C) {
        let ghost start = canvas@;
        proof {
            assert(seq![*self][0] == *self);
            assert(seq![*self].drop_last() =~= Seq::<Pixel>::empty());
            assert(plot_all::<C>(start, Seq::<Pixel>::empty()) == start);
            assert(plot_all::<C>(start, seq![*self]) == C::plotted(start, self.pos, self.fill_char));
        }
        canvas.plot(self.pos, self.fill_char);
    }
}

} // verus!
