use gemini_engine::ascii::{Text, TextAlign, TextAlign2D};
use gemini_engine::canvas::{CanDraw, Canvas};
use gemini_engine::colchar::{ColChar, Colour, Modifier};
use gemini_engine::containers::PixelContainer;
use gemini_engine::vec2d::Vec2D;
use gemini_engine::view::{ScaleFitView, View};
use gemini_engine::wrapping::WrappingMode;

fn v(x: i64, y: i64) -> Vec2D {
    Vec2D::new(x, y)
}

/// The visible characters of each row, escape sequences removed.
fn visible_rows(text: &str) -> Vec<String> {
    let body = text.strip_prefix("\x1b[H\x1b[J").expect("frame header");
    let body = body.strip_suffix("\x1b[J").expect("frame footer");
    body.split("\r\n")
        .filter(|r| !r.is_empty())
        .map(|row| {
            let mut out = String::new();
            let mut chars = row.chars().peekable();
            while let Some(c) = chars.next() {
                if c == '\x1b' {
                    for d in chars.by_ref() {
                        if d == 'm' {
                            break;
                        }
                    }
                } else {
                    out.push(c);
                }
            }
            out
        })
        .collect()
}

#[test]
fn wrap_reduces_into_bounds() {
    let size = v(20, 7);
    assert_eq!(WrappingMode::Wrap.handle_bounds(v(20, 4), size), Some(v(0, 4)));
    assert_eq!(WrappingMode::Wrap.handle_bounds(v(-1, -1), size), Some(v(19, 6)));
    assert_eq!(WrappingMode::Wrap.handle_bounds(v(-41, 15), size), Some(v(19, 1)));
    let once = WrappingMode::Wrap.handle_bounds(v(-123, 456), size).unwrap();
    assert!(once.x >= 0 && once.x < 20 && once.y >= 0 && once.y < 7);
    assert_eq!(WrappingMode::Wrap.handle_bounds(once, size), Some(once));
}

#[test]
fn ignore_passes_only_in_bounds() {
    let size = v(20, 7);
    assert_eq!(WrappingMode::Ignore.handle_bounds(v(19, 6), size), Some(v(19, 6)));
    assert_eq!(WrappingMode::Ignore.handle_bounds(v(20, 6), size), None);
    assert_eq!(WrappingMode::Ignore.handle_bounds(v(0, -1), size), None);
    assert_eq!(WrappingMode::Panic.handle_bounds(v(3, 3), size), Some(v(3, 3)));
}

#[test]
fn new_view_is_background() {
    let view = View::new(3, 2, ColChar::background());
    assert_eq!(visible_rows(&view.render()), vec!["\u{2591}\u{2591}\u{2591}", "\u{2591}\u{2591}\u{2591}"]);
    assert_eq!(view.size(), v(3, 2));
    assert_eq!(view.center(), v(1, 1));
}

#[test]
fn plot_then_render_places_glyph() {
    let mut view = View::new(9, 3, ColChar::empty());
    view.plot(v(4, 1), ColChar::new('X', Modifier::red()));
    let rows = visible_rows(&view.render());
    assert_eq!(rows, vec!["         ", "    X    ", "         "]);

    let mut wrapped = View::new(9, 3, ColChar::empty()).with_wrapping_mode(WrappingMode::Wrap);
    wrapped.plot(v(-1, 5), ColChar::new('W', Modifier::Plain));
    let rows = visible_rows(&wrapped.render());
    assert_eq!(rows[2], "        W");
}

#[test]
fn ignore_drops_out_of_bounds_plot() {
    let mut view = View::new(4, 1, ColChar::empty());
    view.plot(v(4, 0), ColChar::solid());
    view.plot(v(-1, 0), ColChar::solid());
    assert_eq!(visible_rows(&view.render()), vec!["    "]);
}

#[test]
fn clear_restores_background_after_resize() {
    let mut view = View::new(2, 1, ColChar::empty());
    view.plot(v(1, 0), ColChar::solid());
    view.width = 3;
    view.height = 2;
    view.clear();
    assert_eq!(visible_rows(&view.render()), vec!["   ", "   "]);
}

#[test]
fn uniform_row_emits_one_escape_and_one_reset() {
    let mut view = View::new(6, 1, ColChar::new('x', Modifier::red()));
    view.clear();
    let text = view.render();
    assert_eq!(text, "\x1b[H\x1b[J\x1b[31mxxxxxx\x1b[0m\r\n\x1b[J");
    assert_eq!(text.matches("\x1b[31m").count(), 1);
    assert_eq!(text.matches("\x1b[0m").count(), 1);
}

#[test]
fn changing_appearance_emits_sequences_at_boundaries() {
    let mut view = View::new(3, 1, ColChar::new('a', Modifier::Plain));
    view.plot(v(1, 0), ColChar::new('b', Modifier::from_rgb(1, 2, 3)));
    assert_eq!(view.render(), "\x1b[H\x1b[Ja\x1b[0m\x1b[38;2;1;2;3mb\x1b[0ma\x1b[0m\r\n\x1b[J");
}

#[test]
fn cell_text_with_neighbours() {
    let c = ColChar::new('z', Modifier::blue());
    let mut s = String::new();
    c.display_with_prev_and_next(&mut s, Some(Modifier::blue()), Some(Modifier::blue()));
    assert_eq!(s, "z");
    let mut s = String::new();
    c.display_with_prev_and_next(&mut s, None, None);
    assert_eq!(s, "\x1b[34mz\x1b[0m");
}

#[test]
fn hsv_conversion() {
    assert_eq!(Colour::hsv(0, 255, 255), Colour::rgb(255, 0, 0));
    assert_eq!(Colour::hsv(85, 255, 255), Colour::rgb(0, 255, 0));
    assert_eq!(Colour::hsv(170, 255, 255), Colour::rgb(0, 0, 255));
    assert_eq!(Colour::hsv(43, 255, 255), Colour::rgb(252, 255, 0));
    assert_eq!(Colour::hsv(0, 0, 128), Colour::greyscale(128));
    assert_eq!(Colour::hsv(255, 255, 255), Colour::rgb(255, 0, 0));
    assert_eq!(Colour::hsv(128, 128, 200), Colour::rgb(100, 199, 200));
    assert_eq!(Modifier::from_hsv(0, 255, 255), Modifier::Colour(Colour::rgb(255, 0, 0)));
    let c = ColChar::solid().with_hsv(0, 0, 10);
    assert_eq!(c.modifier, Modifier::Colour(Colour::greyscale(10)));
}

#[test]
fn colchar_builders() {
    let c = ColChar::new('a', Modifier::Plain).with_char('b').with_rgb(1, 2, 3);
    assert_eq!(c, ColChar::new('b', Modifier::Colour(Colour::rgb(1, 2, 3))));
    assert_eq!(c.with_mod(Modifier::end()).modifier, Modifier::Coded(0));
    assert_eq!(c.with_colour(Colour::greyscale(7)).modifier, Modifier::Colour(Colour::rgb(7, 7, 7)));
    assert_eq!(Modifier::green(), Modifier::Coded(32));
}

#[test]
fn text_alignment() {
    assert_eq!(TextAlign::Begin.apply_to(10, 5), 10);
    assert_eq!(TextAlign::Centered.apply_to(10, 5), 8);
    assert_eq!(TextAlign::End.apply_to(10, 5), 5);
    assert_eq!(TextAlign::Centered.apply_to(0, -3), 1);
    let a = TextAlign2D::new(TextAlign::End, TextAlign::Centered);
    assert_eq!(a.apply_to(v(10, 10), v(4, 3)), v(6, 9));
    assert_eq!(TextAlign2D::centered().apply_to(v(0, 0), v(2, 2)), v(-1, -1));
}

#[test]
fn text_skips_spaces() {
    let mut c = PixelContainer::new();
    Text::new(v(2, 1), "a b", Modifier::Plain).with_align(TextAlign::End).draw_to(&mut c);
    let got: Vec<(i64, char)> = c.pixels.iter().map(|p| (p.pos.x, p.fill_char.text_char)).collect();
    assert_eq!(got, vec![(-1, 'a'), (1, 'b')]);
}

#[test]
fn scale_fit_size() {
    assert_eq!(ScaleFitView::fit_size(80, 24, 1), v(80, 22));
    assert_eq!(ScaleFitView::fit_size(80, 1, 3), v(80, 0));
}

#[test]
fn draw_into_view() {
    let mut view = View::new(3, 3, ColChar::empty());
    let mut c = PixelContainer::new();
    c.plot(v(0, 0), ColChar::new('#', Modifier::Plain));
    c.plot(v(2, 2), ColChar::new('#', Modifier::Plain));
    view.draw(&c);
    assert_eq!(visible_rows(&view.render()), vec!["#  ", "   ", "  #"]);
}

#[test]
fn colour_parse_accepts_fields() {
    assert_eq!(Colour::parse("255,0,0"), Ok(Colour::rgb(255, 0, 0)));
    assert_eq!(Colour::parse(" 1, 2 ,3 "), Ok(Colour::rgb(1, 2, 3)));
    assert_eq!(Colour::parse("+7,007,0"), Ok(Colour::rgb(7, 7, 0)));
    assert_eq!("10,20,30".parse::<Colour>(), Ok(Colour::rgb(10, 20, 30)));
}

#[test]
fn colour_parse_rejects_field_count() {
    let msg = |s: &str| format!("Incorrect number of arguments in \"{s}\", string must be in format r,g,b to be parsed correctly");
    assert_eq!(Colour::parse("1,2"), Err(msg("1,2")));
    assert_eq!(Colour::parse("1,2,3,4"), Err(msg("1,2,3,4")));
    assert_eq!(Colour::parse(""), Err(msg("")));
}

#[test]
fn colour_parse_rejects_bad_values() {
    let msg = |f: &str| format!("Could not parse part of argument \"{f}\", make sure it's a valid number");
    assert_eq!(Colour::parse("256,0,0"), Err(msg("256")));
    assert_eq!(Colour::parse("0, a b ,0"), Err(msg("ab")));
    assert_eq!(Colour::parse(",0,0"), Err(msg("")));
    assert_eq!(Colour::parse("0,-1,x"), Err(msg("-1")));
    assert_eq!(Colour::parse("1,2,+"), Err(msg("+")));
    assert_eq!(Colour::parse("99999999999999999999,0,0"), Err(msg("99999999999999999999")));
}
#[test]
fn scale_fit_view_reports_missing_terminal() {
    match ScaleFitView::new(ColChar::background()) {
        Ok(v) => {
            assert_eq!(v.empty_row_count, 1);
            assert_eq!(v.view.render().matches('\u{2591}').count(), v.view.width * v.view.height);
        }
        Err(e) => assert_eq!(e, "Couldn't get terminal size"),
    }
}

#[test]
fn colour_addition_wraps() {
    let a = Colour::rgb(200, 10, 0);
    let b = Colour::rgb(100, 10, 1);
    assert_eq!(a + b, Colour::rgb(44, 20, 1));
    let mut c = a;
    c += b;
    assert_eq!(c, Colour::rgb(44, 20, 1));
}
