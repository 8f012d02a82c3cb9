use gemini_engine::ascii::{AnimatedSprite, Sprite, TextAlign, TextAlign2D};
use gemini_engine::canvas::CanDraw;
use gemini_engine::colchar::{ColChar, Modifier};
use gemini_engine::containers::PixelContainer;
use gemini_engine::vec2d::Vec2D;
use gemini_engine::view::View;
use gemini_engine::wrapping::WrappingMode;

fn v(x: i64, y: i64) -> Vec2D {
    Vec2D::new(x, y)
}

fn plotted(e: &impl CanDraw) -> Vec<(i64, i64, char)> {
    let mut c = PixelContainer::new();
    e.draw_to(&mut c);
    c.pixels.iter().map(|p| (p.pos.x, p.pos.y, p.fill_char.text_char)).collect()
}

#[test]
fn sprite_trims_leading_newlines() {
    let s = Sprite::new(v(0, 0), "\n\nab\ncd", Modifier::Plain);
    assert_eq!(s.texture, "ab\ncd");
    assert_eq!(plotted(&s), vec![(0, 0, 'a'), (1, 0, 'b'), (0, 1, 'c'), (1, 1, 'd')]);
}

#[test]
fn sprite_centred_alignment() {
    let s = Sprite::new(v(10, 10), "abcd\nef\n", Modifier::Plain).with_align(TextAlign2D::centered());
    // the block is 4 wide and 2 lines tall, so it starts at (8, 9)
    assert_eq!(plotted(&s), vec![(8, 9, 'a'), (9, 9, 'b'), (10, 9, 'c'), (11, 9, 'd'), (8, 10, 'e'), (9, 10, 'f')]);
}

#[test]
fn sprite_spaces_are_transparent() {
    let s = Sprite::new(v(0, 0), "a b", Modifier::red()).with_align(TextAlign2D::new(TextAlign::End, TextAlign::Begin));
    assert_eq!(plotted(&s), vec![(-3, 0, 'a'), (-1, 0, 'b')]);
}

#[test]
fn animated_sprite_cycles() {
    let mut a = AnimatedSprite::new(v(0, 0), &["\nx", "y", "z"], Modifier::Plain);
    assert_eq!(a.frames, vec![String::from("x"), String::from("y"), String::from("z")]);
    assert_eq!(a.get_current_frame(), 0);
    a.next_frame();
    assert_eq!(a.get_current_frame(), 1);
    assert_eq!(plotted(&a), vec![(0, 0, 'y')]);
    a.next_frame();
    a.next_frame();
    assert_eq!(a.get_current_frame(), 0);
    a.set_current_frame(7);
    assert_eq!(a.get_current_frame(), 1);
}

#[test]
fn double_width_draw() {
    let mut view = View::new(6, 1, ColChar::empty()).with_wrapping_mode(WrappingMode::Ignore);
    let mut c = PixelContainer::new();
    c.plot(v(1, 0), ColChar::new('#', Modifier::Plain));
    view.draw_double_width(&c);
    assert_eq!(view.render(), "\x1b[H\x1b[J  ##  \x1b[0m\r\n\x1b[J");
}
