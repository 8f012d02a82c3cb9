use gemini_engine::canvas::{CanDraw, Pixel};
use gemini_engine::colchar::{ColChar, Modifier};
use gemini_engine::containers::{PixelContainer, VisibilityToggle};
use gemini_engine::interpolate::interpolate;
use gemini_engine::line::{line_points, Line};
use gemini_engine::polygon::{triangulate, Polygon};
use gemini_engine::rect::Rect;
use gemini_engine::triangle::Triangle;
use gemini_engine::vec2d::Vec2D;

fn v(x: i64, y: i64) -> Vec2D {
    Vec2D::new(x, y)
}

fn assert_connected(path: &[Vec2D]) {
    for w in path.windows(2) {
        let dx = (w[0].x - w[1].x).abs();
        let dy = (w[0].y - w[1].y).abs();
        assert!(dx <= 1 && dy <= 1 && (dx, dy) != (0, 0), "gap between {:?} and {:?}", w[0], w[1]);
    }
}

#[test]
fn line_shallow_example() {
    let path = line_points(v(0, 0), v(3, 1));
    assert_eq!(path, vec![v(0, 0), v(1, 0), v(2, 1), v(3, 1)]);
}

#[test]
fn line_single_point() {
    assert_eq!(line_points(v(5, 5), v(5, 5)), vec![v(5, 5)]);
}

#[test]
fn line_all_octants_connected() {
    let ends = [
        (7, 2), (2, 7), (-2, 7), (-7, 2), (-7, -2), (-2, -7), (2, -7), (7, -2), (0, 9), (9, 0), (-9, 0), (0, -9), (5, 5), (-5, 5),
    ];
    for (x, y) in ends {
        let path = line_points(v(1, 1), v(1 + x, 1 + y));
        assert_eq!(path[0], v(1, 1));
        assert_eq!(*path.last().unwrap(), v(1 + x, 1 + y));
        assert_eq!(path.len() as i64, x.abs().max(y.abs()) + 1);
        assert_connected(&path);
    }
}

#[test]
fn line_far_endpoints() {
    let a = v(i64::MIN + 3, -10);
    let b = v(i64::MIN + 6, -10);
    let path = line_points(a, b);
    assert_eq!(path.len(), 4);
    assert_eq!(path[3], b);
}

#[test]
fn line_draws_its_path() {
    let mut c = PixelContainer::new();
    Line::new(v(0, 0), v(2, 2), ColChar::solid()).draw_to(&mut c);
    let pos: Vec<Vec2D> = c.pixels.iter().map(|p| p.pos).collect();
    assert_eq!(pos, vec![v(0, 0), v(1, 1), v(2, 2)]);
}

#[test]
fn interpolate_rounds_half_away_from_zero() {
    assert_eq!(interpolate(0, 0, 4, 2), vec![0, 1, 1, 2, 2]);
    assert_eq!(interpolate(0, 0, 2, -1), vec![0, -1, -1]);
    assert_eq!(interpolate(10, 3, 13, 0), vec![3, 2, 1, 0]);
}

#[test]
fn interpolate_equal_independent_values() {
    assert_eq!(interpolate(3, 7, 3, 9), vec![7]);
}

#[test]
fn interpolate_reversed_range_is_empty() {
    assert_eq!(interpolate(5, 0, 2, 3), Vec::<i64>::new());
}

#[test]
fn interpolate_extreme_values() {
    let r = interpolate(0, i64::MIN, 2, i64::MAX);
    assert_eq!(r.len(), 3);
    assert_eq!(r[0], i64::MIN);
    assert_eq!(r[2], i64::MAX);
    assert_eq!(r[1], -1);
}

fn area2(t: &[Vec2D; 3]) -> i64 {
    let c = |a: Vec2D, b: Vec2D| a.x * b.y - a.y * b.x;
    c(t[0], t[1]) + c(t[1], t[2]) + c(t[2], t[0])
}

fn shoelace(p: &[Vec2D]) -> i64 {
    let n = p.len();
    (0..n).map(|i| p[i].x * p[(i + 1) % n].y - p[i].y * p[(i + 1) % n].x).sum()
}

#[test]
fn triangulate_square() {
    let sq = vec![v(0, 0), v(4, 0), v(4, 4), v(0, 4)];
    let tris = triangulate(&sq);
    assert_eq!(tris.len(), 2);
    assert_eq!(tris.iter().map(|t| area2(t)).sum::<i64>(), shoelace(&sq));
    assert_eq!(tris.iter().map(|t| area2(t).abs()).sum::<i64>(), shoelace(&sq).abs());
}

#[test]
fn triangulate_convex_hexagon() {
    let hex = vec![v(2, 0), v(6, 0), v(8, 3), v(6, 6), v(2, 6), v(0, 3)];
    let tris = triangulate(&hex);
    assert_eq!(tris.len(), 4);
    assert_eq!(tris.iter().map(|t| area2(t)).sum::<i64>(), shoelace(&hex));
    for t in &tris {
        for p in t {
            assert!(hex.contains(p));
        }
    }
}

#[test]
fn triangulate_concave_polygon() {
    let poly = vec![v(0, 0), v(10, 0), v(10, 10), v(5, 4), v(0, 10)];
    let tris = triangulate(&poly);
    assert_eq!(tris.len(), 3);
    assert_eq!(tris.iter().map(|t| area2(t)).sum::<i64>(), shoelace(&poly));
    assert_eq!(tris.iter().map(|t| area2(t).abs()).sum::<i64>(), shoelace(&poly).abs());
}

#[test]
fn triangulate_triangle_is_itself() {
    let t = vec![v(0, 0), v(5, 1), v(2, 7)];
    assert_eq!(triangulate(&t), vec![[v(0, 0), v(5, 1), v(2, 7)]]);
}

#[test]
fn triangulate_degenerate_input() {
    assert!(triangulate(&vec![]).is_empty());
    assert!(triangulate(&vec![v(1, 1), v(2, 2)]).is_empty());
}

#[test]
fn triangle_fill_rows() {
    let mut c = PixelContainer::new();
    let t = Triangle::new(v(0, 0), v(4, 0), v(0, 4), ColChar::solid());
    t.draw_to(&mut c);
    // every interior row holds a run, and the three corners are plotted by the outline
    for y in 0..4 {
        assert!(c.pixels.iter().any(|p| p.pos == v(0, y)));
    }
    for corner in [v(0, 0), v(4, 0), v(0, 4)] {
        assert!(c.pixels.iter().any(|p| p.pos == corner));
    }
    assert!(c.pixels.iter().all(|p| p.pos.x >= 0 && p.pos.y >= 0 && p.pos.x + p.pos.y <= 4));
}

#[test]
fn triangle_flat_bottom_and_sorting() {
    let mut a = PixelContainer::new();
    Triangle::new(v(0, 3), v(6, 3), v(3, 0), ColChar::solid()).draw_to(&mut a);
    let mut b = PixelContainer::new();
    Triangle::new(v(3, 0), v(0, 3), v(6, 3), ColChar::solid()).draw_to(&mut b);
    let mut pa: Vec<(i64, i64)> = a.pixels.iter().map(|p| (p.pos.x, p.pos.y)).collect();
    let mut pb: Vec<(i64, i64)> = b.pixels.iter().map(|p| (p.pos.x, p.pos.y)).collect();
    pa.sort();
    pa.dedup();
    pb.sort();
    pb.dedup();
    assert_eq!(pa, pb);
    assert!(pa.contains(&(3, 1)));
}

#[test]
fn polygon_fill_covers_square() {
    let mut c = PixelContainer::new();
    Polygon::new(&vec![v(0, 0), v(3, 0), v(3, 3), v(0, 3)], ColChar::solid()).draw_to(&mut c);
    for x in 0..=3 {
        for y in 0..=3 {
            assert!(c.pixels.iter().any(|p| p.pos == v(x, y)), "({x},{y}) missing");
        }
    }
}

#[test]
fn rect_plots_column_by_column() {
    let mut c = PixelContainer::new();
    Rect::new(v(1, 1), v(2, 3), ColChar::solid()).draw_to(&mut c);
    let pos: Vec<Vec2D> = c.pixels.iter().map(|p| p.pos).collect();
    assert_eq!(pos, vec![v(1, 1), v(1, 2), v(1, 3), v(2, 1), v(2, 2), v(2, 3)]);
    let r = Rect::new_from_to(v(1, 1), v(2, 3), ColChar::solid());
    assert_eq!(r.size, v(2, 3));
    assert_eq!(r.bottom_right(), v(2, 3));
}

#[test]
fn containers_record_and_toggle() {
    let mut c = PixelContainer::new();
    c.append_points(&vec![v(1, 2), v(3, 4)], ColChar::solid());
    let mut extra = vec![Pixel::new(v(0, 0), ColChar::empty())];
    c.append(&mut extra);
    assert!(extra.is_empty());
    assert_eq!(c.pixels.len(), 3);

    let mut toggle = VisibilityToggle::new(c.clone());
    let mut out = PixelContainer::new();
    toggle.draw_to(&mut out);
    assert_eq!(out.pixels.len(), 3);
    toggle.visible = false;
    let mut out2 = PixelContainer::new();
    toggle.draw_to(&mut out2);
    assert!(out2.pixels.is_empty());
    let _ = Modifier::Plain;
}

#[test]
fn triangulate_cuts_only_ears() {
    let poly = vec![v(2, 1), v(4, 0), v(2, 4), v(0, 0)];
    let tris = triangulate(&poly);
    assert_eq!(tris.len(), 2);
    assert_eq!(tris[0], [v(2, 1), v(4, 0), v(2, 4)]);
    assert!(tris.iter().all(|t| area2(t) > 0));
    assert_eq!(tris.iter().map(|t| area2(t).abs()).sum::<i64>(), shoelace(&poly).abs());
}

#[test]
fn triangulate_clockwise_concave_polygon() {
    let poly = vec![v(0, 10), v(5, 4), v(10, 10), v(10, 0), v(0, 0)];
    let tris = triangulate(&poly);
    assert_eq!(tris.len(), 3);
    assert!(tris.iter().all(|t| area2(t) < 0));
    assert_eq!(tris.iter().map(|t| area2(t).abs()).sum::<i64>(), shoelace(&poly).abs());
}
