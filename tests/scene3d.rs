use gemini_engine::canvas::CanDraw;
use gemini_engine::colchar::{ColChar, Modifier};
use gemini_engine::containers::PixelContainer;
use gemini_engine::vec2d::Vec2D;
use gemini_engine::view::View;
use gemini_engine::view3d::{brightness_char, is_clockwise, DisplayMode, Face, ProjectedFace, ProjectedScene};
use glam::{DMat4, DVec2, DVec3};

fn v(x: i64, y: i64) -> Vec2D {
    Vec2D::new(x, y)
}

fn square_at(x: i64, y: i64) -> Vec<Vec2D> {
    vec![v(x, y), v(x, y + 1), v(x + 1, y + 1), v(x + 1, y)]
}

#[test]
fn winding_sign_convention() {
    // shoelace sum of (x_i - x_{i+1}) * (y_i + y_{i+1}): non-positive passes
    assert!(!is_clockwise(&vec![v(0, 0), v(1, 0), v(1, 1), v(0, 1)]));
    assert!(is_clockwise(&vec![v(0, 1), v(1, 1), v(1, 0), v(0, 0)]));
    assert!(is_clockwise(&vec![v(0, 0), v(0, 1), v(1, 1), v(1, 0)]));
}

#[test]
fn clockwise_needs_three_points() {
    assert!(!is_clockwise(&vec![v(0, 0), v(5, 0)]));
    assert!(!is_clockwise(&vec![]));
}

#[test]
fn index_into_gathers_vertices() {
    let face = Face::new(vec![2, 0, 1], ColChar::solid());
    assert_eq!(face.index_into(&vec!['a', 'b', 'c']), Ok(vec!['c', 'a', 'b']));
}

#[test]
fn index_into_reports_first_bad_index() {
    let face = Face::new(vec![0, 5, 7], ColChar::solid());
    assert_eq!(
        face.index_into(&vec![1, 2, 3]),
        Err(String::from("Mesh face vertex index (5) is out of bounds (3)"))
    );
}

#[test]
fn brightness_ramp_is_clamped() {
    assert_eq!(brightness_char(0), '.');
    assert_eq!(brightness_char(11), '@');
    assert_eq!(brightness_char(500), '@');
    let ramp: Vec<char> = (0..20).map(brightness_char).collect();
    let order = ".,-~:;=!*#$@";
    for w in ramp.windows(2) {
        assert!(order.find(w[0]).unwrap() <= order.find(w[1]).unwrap());
    }
}

fn face(x: i64, c: char, depth: i64) -> ProjectedFace {
    ProjectedFace::new(square_at(x, 0), ColChar::new(c, Modifier::Plain), depth)
}

#[test]
fn solid_draws_farthest_first() {
    let scene = ProjectedScene::new(vec![face(0, 'a', 5000), face(4, 'b', 1000), face(8, 'c', 10000)], DisplayMode::Solid);
    assert_eq!(scene.draw_order(), vec![2, 0, 1]);
    let mut c = PixelContainer::new();
    scene.draw_to(&mut c);
    let mut seen: Vec<char> = Vec::new();
    for p in &c.pixels {
        if seen.last() != Some(&p.fill_char.text_char) {
            seen.push(p.fill_char.text_char);
        }
    }
    assert_eq!(seen, vec!['c', 'a', 'b']);
}

#[test]
fn equal_depths_keep_their_order() {
    let scene = ProjectedScene::new(vec![face(0, 'a', 7), face(4, 'b', 9), face(8, 'c', 7)], DisplayMode::Solid);
    assert_eq!(scene.draw_order(), vec![1, 0, 2]);
}

#[test]
fn culling_and_clipping() {
    let mut back = face(0, 'a', 1);
    back.vertices.reverse();
    let mut behind = face(4, 'b', 1);
    behind.behind_camera = true;
    let faces = vec![back, behind, face(8, 'c', 1)];
    let solid = ProjectedScene::new(faces.clone(), DisplayMode::Solid);
    assert_eq!(solid.draw_order(), vec![2]);
    let wire = ProjectedScene::new(faces.clone(), DisplayMode::Wireframe { backface_culling: false });
    assert_eq!(wire.draw_order(), vec![0, 2]);
    let wire_culled = ProjectedScene::new(faces, DisplayMode::Wireframe { backface_culling: true });
    assert_eq!(wire_culled.draw_order(), vec![2]);
}

#[test]
fn wireframe_draws_outline() {
    let scene = ProjectedScene::new(vec![ProjectedFace::new(vec![v(0, 0), v(2, 0), v(2, 2)], ColChar::solid(), 0)], DisplayMode::Wireframe { backface_culling: false });
    let mut c = PixelContainer::new();
    scene.draw_to(&mut c);
    let pos: Vec<Vec2D> = c.pixels.iter().map(|p| p.pos).collect();
    assert_eq!(pos, vec![v(0, 0), v(1, 0), v(2, 0), v(2, 0), v(2, 1), v(2, 2), v(2, 2), v(1, 1), v(0, 0)]);
}

#[test]
fn illuminated_uses_ramp_character() {
    let mut lit = face(0, 'x', 1);
    lit.light_level = Some(3);
    let unlit = face(4, 'y', 0);
    let scene = ProjectedScene::new(vec![lit, unlit], DisplayMode::Illuminated);
    let mut c = PixelContainer::new();
    scene.draw_to(&mut c);
    assert!(c.pixels.iter().any(|p| p.fill_char.text_char == '~'));
    assert!(c.pixels.iter().any(|p| p.fill_char.text_char == 'y'));
    assert!(!c.pixels.iter().any(|p| p.fill_char.text_char == 'x'));
}

fn cube() -> (Vec<DVec3>, Vec<Face>) {
    let vertices = vec![
        DVec3::new(1.0, 1.0, -1.0),
        DVec3::new(1.0, 1.0, 1.0),
        DVec3::new(1.0, -1.0, -1.0),
        DVec3::new(1.0, -1.0, 1.0),
        DVec3::new(-1.0, 1.0, -1.0),
        DVec3::new(-1.0, 1.0, 1.0),
        DVec3::new(-1.0, -1.0, -1.0),
        DVec3::new(-1.0, -1.0, 1.0),
    ];
    let faces = vec![
        Face::new(vec![2, 3, 1, 0], ColChar::solid().with_mod(Modifier::blue())),
        Face::new(vec![4, 5, 7, 6], ColChar::solid().with_mod(Modifier::blue())),
        Face::new(vec![1, 3, 7, 5], ColChar::solid()),
        Face::new(vec![4, 6, 2, 0], ColChar::solid()),
        Face::new(vec![6, 7, 3, 2], ColChar::solid().with_mod(Modifier::red())),
        Face::new(vec![0, 1, 5, 4], ColChar::solid().with_mod(Modifier::red())),
    ];
    (vertices, faces)
}

#[test]
fn cube_scene_lands_in_canvas() {
    let view = View::new(100, 50, ColChar::empty());
    let centre = view.center();
    let camera = glam::dcamera::lh::view::look_at_mat4(DVec3::new(0.0, -1.5, 4.3), DVec3::ZERO, DVec3::Y);
    let perspective = glam::dcamera::rh::proj::directx::perspective_infinite(80f64.to_radians(), 1.0, 0.3);
    let centre_f = DVec2::new(centre.x as f64, centre.y as f64);
    let size = DVec2::splat(centre_f.max_element());
    let (vertices, faces) = cube();
    let world: Vec<DVec3> = vertices.iter().map(|p| camera.mul_mat4(&DMat4::IDENTITY).transform_point3(*p)).collect();
    let screen: Vec<Vec2D> = world
        .iter()
        .map(|p| {
            let pv = perspective.project_point3(*p);
            let pv = DVec2::new(pv.x * 2.0, -pv.y) * size + centre_f;
            Vec2D::new(pv.x as i64, pv.y as i64)
        })
        .collect();
    let projected: Vec<ProjectedFace> = faces
        .iter()
        .map(|f| {
            let cam = f.index_into(&world).unwrap();
            let centroid = cam.iter().copied().sum::<DVec3>() / cam.len() as f64;
            let mut pf = ProjectedFace::new(f.index_into(&screen).unwrap(), f.fill_char, (centroid.length() * 1000.0).round() as i64);
            pf.behind_camera = cam.iter().any(|p| p.z <= 0.3);
            pf
        })
        .collect();
    let scene = ProjectedScene::new(projected, DisplayMode::Solid);
    let mut c = PixelContainer::new();
    scene.draw_to(&mut c);
    assert!(!c.pixels.is_empty());
    assert!(c.pixels.iter().all(|p| (0..100).contains(&p.pos.x) && (0..50).contains(&p.pos.y)));
    let n = c.pixels.len() as i64;
    let mx = c.pixels.iter().map(|p| p.pos.x).sum::<i64>() / n;
    let my = c.pixels.iter().map(|p| p.pos.y).sum::<i64>() / n;
    assert!((mx - 50).abs() <= 15 && (my - 25).abs() <= 15, "centre of mass ({mx}, {my})");
}
