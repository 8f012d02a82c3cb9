use vstd::prelude::*;
use vstd::view::View as HasView;
use crate::canvas::{Canvas, CanDraw, Pixel, plot_all, accepts_all, plot_pixels, pixels_of};
use crate::colchar::ColChar;
use crate::vec2d::Vec2D;

verus! {

/// A canvas that records every plotted pixel, and can replay them onto another canvas.
#[derive(Debug, Clone)]
pub struct PixelContainer {
    pub pixels: Vec<Pixel>,
}

impl HasView for PixelContainer {
    type V = Seq<Pixel>;

    open spec fn view(&self) -> Seq<Pixel> {
        self.pixels@
    }
}

impl PixelContainer {
    /// An empty container.
    pub fn new() -> (r: Self)
        ensures
            r@ == Seq::<Pixel>::empty(),
    {
        PixelContainer { pixels: Vec::new() }
    }

    /// Record a pixel at `pos`.
    pub fn plot(&mut self, pos: Vec2D, c: ColChar)
        ensures
            final(self)@ == old(self)@.push(Pixel { pos, fill_char: c }),
    {
        self.pixels.push(Pixel { pos, fill_char: c });
    }

    /// Move all of `pixels` to the end of the container, leaving `pixels` empty.
    pub fn append(&mut self, pixels: &mut Vec<Pixel>)
        ensures
            final(self)@ == old(self)@ + old(pixels)@,
            final(pixels)@ == Seq::<Pixel>::empty(),
    {
        self.pixels.append(pixels);
    }

    /// Record each of `points` with the same appearance.
    pub fn append_points(&mut self, points: &Vec<Vec2D>, fill_char: ColChar)
        ensures
            final(self)@ == old(self)@ + pixels_of(points@, fill_char),
    {
        let ghost start = self@;
        let mut i: usize = 0;
        while i < points.len()
            invariant
                i <= points@.len(),
                self@ == start + pixels_of(points@.take(i as int), fill_char),
            decreases points@.len() - i,
        {
            self.plot(points[i], fill_char);
            i = i + 1;
            assert(self@ =~= start + pixels_of(points@.take(i as int), fill_char));
        }
        assert(points@.take(i as int) =~= points@);
    }

    /// Record the pixels of `element`.
    pub fn draw<E: CanDraw>(&mut self, element: &E)
        requires
            element.drawable(),
        ensures
            final(self)@ == old(self)@ + element.pixels(),
    {
        proof {
            lemma_container_plot_all(old(self)@, element.pixels());
        }
        element.draw_to(self);
    }
}

proof fn lemma_container_plot_all(model: Seq<Pixel>, px: Seq<Pixel>)
    ensures
        plot_all::<PixelContainer>(model, px) == model + px,
        accepts_all::<PixelContainer>(model, px),
    decreases px.len(),
{
    if px.len() > 0 {
        lemma_container_plot_all(model, px.drop_last());
        assert(model + px =~= (model + px.drop_last()).push(px.last()));
    } else {
        assert(model + px =~= model);
    }
}

impl Canvas for PixelContainer {
    open spec fn accepts(model: Seq<Pixel>, pos: Vec2D) -> bool {
        true
    }

    open spec fn plotted(model: Seq<Pixel>, pos: Vec2D, c: ColChar) -> Seq<Pixel> {
        model.push(Pixel { pos, fill_char: c })
    }

    proof fn lemma_plotted_accepts(model: Seq<Pixel>, pos: Vec2D, c: ColChar, q: Vec2D) {
    }

    fn plot(&mut self, pos: Vec2D, c: ColChar) {
        self.pixels.push(Pixel { pos, fill_char: c });
    }
}

impl CanDraw for PixelContainer {
    open spec fn drawable(&self) -> bool {
        true
    }

    open spec fn pixels(&self) -> Seq<Pixel> {
        self.pixels@
    }

    fn draw_to<C: Canvas>(&self, canvas: &mut C) {
        plot_pixels(canvas, &self.pixels);
    }
}

/// Holds an element that is drawn only while `visible` is set.
#[derive(Debug, Clone)]
pub struct VisibilityToggle<E: CanDraw> {
    pub element: E,
    pub visible: bool,
}

impl<E: CanDraw> VisibilityToggle<E> {
    /// Wrap `element`, visible.
    pub fn new(element: E) -> (r: Self)
        ensures
            r.element == element,
            r.visible,
    {
        VisibilityToggle { element, visible: true }
    }
}

impl<E: CanDraw> CanDraw for VisibilityToggle<E> {
    open spec fn drawable(&self) -> bool {
        self.element.drawable()
    }

    open spec fn pixels(&self) -> Seq<Pixel> {
        if self.visible {
            self.element.pixels()
        } else {
            Seq::empty()
        }
    }

    fn draw_to<C: Canvas>(&self, canvas: &mut C) {
        if self.visible {
            self.element.draw_to(canvas);
        }
    }
}

} // verus!
