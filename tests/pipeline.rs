use rasterizer::rasterizer::{Buffer, Indices, Primitive, Rasterizer};
use rasterizer::triangle::{Color, Point, Triangle, SUBPIXEL};

fn tri(v: [(i64, i64, i64); 3], c: (u8, u8, u8)) -> Triangle {
    let mut t = Triangle::new();
    for (i, p) in v.iter().enumerate() {
        t.set_vertex(i, Point::new(p.0, p.1, p.2));
        t.set_color(i, c.0, c.1, c.2);
    }
    t
}

fn px(r: &Rasterizer<()>, x: usize, y: usize) -> Color {
    r.frame_buf()[r.get_index(x, y)]
}

fn depth(r: &Rasterizer<()>, x: usize, y: usize) -> i64 {
    r.depth_buf()[r.get_index(x, y)]
}

#[test]
fn indices_new_keeps_order() {
    let i = Indices::new(3, 1, 2);
    assert_eq!(i, Indices(3, 1, 2));
}

#[test]
fn new_rasterizer_is_cleared() {
    let r: Rasterizer<()> = Rasterizer::new(4, 3);
    assert_eq!(r.width(), 4);
    assert_eq!(r.height(), 3);
    assert_eq!(r.frame_buf().len(), 12);
    assert!(r.frame_buf().iter().all(|c| *c == Color::black()));
    assert!(r.depth_buf().iter().all(|d| *d == 0));
    assert_eq!(r.next_id(), 0);
}

#[test]
fn rows_are_stored_bottom_up() {
    let r: Rasterizer<()> = Rasterizer::new(4, 3);
    assert_eq!(r.get_index(0, 0), 8);
    assert_eq!(r.get_index(3, 0), 11);
    assert_eq!(r.get_index(0, 2), 0);
    assert_eq!(r.get_index(3, 2), 3);
}

fn drawn_scene() -> Rasterizer<()> {
    let mut r: Rasterizer<()> = Rasterizer::new(8, 8);
    let t = tri([(0, 0, -5), (7 * SUBPIXEL, 0, -5), (0, 7 * SUBPIXEL, -5)], (10, 20, 30));
    r.draw(&vec![t], Primitive::Triangle);
    r
}

#[test]
fn clear_depth_keeps_frame() {
    let mut r = drawn_scene();
    let frame = r.frame_buf().clone();
    r.clear(Buffer::Depth);
    assert_eq!(r.frame_buf(), &frame);
    assert!(r.depth_buf().iter().all(|d| *d == 0));
}

#[test]
fn clear_color_keeps_depth() {
    let mut r = drawn_scene();
    let depths = r.depth_buf().clone();
    assert!(depths.iter().any(|d| *d != 0));
    r.clear(Buffer::Color);
    assert_eq!(r.depth_buf(), &depths);
    assert!(r.frame_buf().iter().all(|c| *c == Color::black()));
}

#[test]
fn clear_all_resets_both() {
    let mut r = drawn_scene();
    r.clear(Buffer::All);
    assert!(r.frame_buf().iter().all(|c| *c == Color::black()));
    assert!(r.depth_buf().iter().all(|d| *d == 0));
}

#[test]
fn vertex_ids_start_at_zero_and_increase() {
    let mut r: Rasterizer<u32> = Rasterizer::new(2, 2);
    assert_eq!(r.insert_vertexs(vec![10, 11, 12]), 0);
    assert_eq!(r.insert_vertexs(vec![]), 3);
    assert_eq!(r.insert_vertexs(vec![13, 14]), 3);
    assert_eq!(r.next_id(), 5);
    let (a, b, c) = r.get_vertexs(&Indices::new(0, 3, 4));
    assert_eq!((*a, *b, *c), (10, 13, 14));
}

#[test]
fn indices_are_appended_verbatim() {
    let mut r: Rasterizer<u32> = Rasterizer::new(2, 2);
    r.insert_indices(&vec![Indices::new(0, 1, 2)]);
    r.insert_indices(&vec![Indices::new(9, 9, 9), Indices::new(2, 1, 0)]);
    assert_eq!(
        r.index_buf(),
        &vec![Indices::new(0, 1, 2), Indices::new(9, 9, 9), Indices::new(2, 1, 0)]
    );
}

#[test]
fn inside_for_both_windings() {
    let s = SUBPIXEL;
    let ccw = tri([(0, 0, 0), (8 * s, 0, 0), (0, 8 * s, 0)], (1, 1, 1));
    let cw = tri([(0, 0, 0), (0, 8 * s, 0), (8 * s, 0, 0)], (1, 1, 1));
    assert!(ccw.is_inside(2, 2));
    assert!(cw.is_inside(2, 2));
    assert!(!ccw.is_inside(7, 7));
    assert!(!cw.is_inside(7, 7));
    // on an edge: strictly outside
    assert!(!ccw.is_inside(0, 3));
}

#[test]
fn inside_on_first_edge_is_outside_for_both_windings() {
    let s = SUBPIXEL;
    let t = tri([(0, 0, 0), (0, 10 * s, 0), (10 * s, 0, 0)], (1, 1, 1));
    let flipped = tri([(0, 0, 0), (10 * s, 0, 0), (0, 10 * s, 0)], (1, 1, 1));
    assert!(!t.is_inside(0, 5));
    assert!(!flipped.is_inside(0, 5));
    assert!(t.is_inside(2, 3));
    assert!(flipped.is_inside(2, 3));
}

#[test]
fn collinear_triangle_covers_nothing() {
    let s = SUBPIXEL;
    let t = tri([(0, 0, 0), (2 * s, 2 * s, 0), (4 * s, 4 * s, 0)], (1, 1, 1));
    for x in 0..5 {
        for y in 0..5 {
            assert!(!t.is_inside(x, y));
        }
    }
}

#[test]
fn barycentric_at_vertices_and_sum() {
    let s = SUBPIXEL;
    let t = tri([(s, s, 0), (9 * s, 2 * s, 0), (3 * s, 7 * s, 0)], (1, 1, 1));
    let w0 = t.compute_barycentric_2d(1, 1);
    assert_eq!((w0.alpha, w0.beta, w0.gamma), (w0.area, 0, 0));
    let w1 = t.compute_barycentric_2d(9, 2);
    assert_eq!((w1.alpha, w1.beta, w1.gamma), (0, w1.area, 0));
    let w2 = t.compute_barycentric_2d(3, 7);
    assert_eq!((w2.alpha, w2.beta, w2.gamma), (0, 0, w2.area));
    assert_eq!(w0.area, 46 * s * s);
    for x in 0..10 {
        for y in 0..10 {
            let w = t.compute_barycentric_2d(x, y);
            assert_eq!(w.alpha + w.beta + w.gamma, w.area);
        }
    }
}

#[test]
fn depth_is_interpolated() {
    let s = SUBPIXEL;
    let t = tri([(0, 0, 0), (8 * s, 0, 800), (0, 8 * s, 1600)], (1, 1, 1));
    assert_eq!(t.interpolate_depth(2, 1), 400);
    assert_eq!(t.interpolate_depth(1, 1), 300);
    let neg = tri([(0, 0, 0), (0, 8 * s, -1600), (8 * s, 0, -800)], (1, 1, 1));
    assert_eq!(neg.interpolate_depth(2, 1), -400);
    let third = tri([(0, 0, 0), (3 * s, 0, 1), (0, 3 * s, 0)], (1, 1, 1));
    assert_eq!(third.interpolate_depth(1, 1), 0);
}

#[test]
fn nearer_triangle_wins() {
    let s = SUBPIXEL;
    let mut r: Rasterizer<()> = Rasterizer::new(8, 8);
    let far = tri([(0, 0, -10), (7 * s, 0, -10), (0, 7 * s, -10)], (1, 2, 3));
    let near = tri([(0, 0, -20), (7 * s, 0, -20), (0, 7 * s, -20)], (4, 5, 6));
    r.draw(&vec![far, near, far], Primitive::Triangle);
    assert_eq!(px(&r, 2, 2), Color::new(4, 5, 6));
    assert_eq!(depth(&r, 2, 2), -20);
    // outside the triangle, and on its edges
    assert_eq!(px(&r, 6, 6), Color::black());
    assert_eq!(px(&r, 0, 3), Color::black());
    // depth zero is never beaten by a farther positive depth
    let mut q: Rasterizer<()> = Rasterizer::new(8, 8);
    let behind = tri([(0, 0, 5), (7 * s, 0, 5), (0, 7 * s, 5)], (1, 2, 3));
    q.draw(&vec![behind], Primitive::Triangle);
    assert!(q.frame_buf().iter().all(|c| *c == Color::black()));
}

#[test]
fn first_vertex_colour_fills_triangle() {
    let s = SUBPIXEL;
    let mut t = tri([(0, 0, -1), (7 * s, 0, -1), (0, 7 * s, -1)], (9, 9, 9));
    t.set_color(1, 200, 0, 0);
    t.set_color(2, 0, 200, 0);
    assert_eq!(*t.get_color(), Color::new(9, 9, 9));
    let mut r: Rasterizer<()> = Rasterizer::new(8, 8);
    r.rasterize_triangle(&t);
    assert_eq!(px(&r, 1, 1), Color::new(9, 9, 9));
    assert_eq!(px(&r, 3, 2), Color::new(9, 9, 9));
}

#[test]
fn drawing_twice_matches_drawing_once() {
    let s = SUBPIXEL;
    let t = tri([(s / 2, s / 3, -7), (7 * s, s, -30), (2 * s, 6 * s, -11)], (50, 60, 70));
    let mut once: Rasterizer<()> = Rasterizer::new(8, 8);
    once.draw(&vec![t], Primitive::Triangle);
    let mut twice: Rasterizer<()> = Rasterizer::new(8, 8);
    twice.draw(&vec![t, t], Primitive::Triangle);
    assert_eq!(once.frame_buf(), twice.frame_buf());
    assert_eq!(once.depth_buf(), twice.depth_buf());
    assert!(once.frame_buf().iter().any(|c| *c == Color::new(50, 60, 70)));
}

#[test]
fn triangle_off_screen_is_clipped_to_the_buffer() {
    let s = SUBPIXEL;
    let t = tri([(-4 * s, -4 * s, -1), (20 * s, -4 * s, -1), (-4 * s, 20 * s, -1)], (7, 7, 7));
    let mut r: Rasterizer<()> = Rasterizer::new(8, 8);
    r.draw(&vec![t], Primitive::Triangle);
    assert_eq!(r.frame_buf().len(), 64);
    assert!(r.frame_buf().iter().all(|c| *c == Color::new(7, 7, 7)));
}

#[test]
fn set_pixel_ignores_off_screen_points() {
    let s = SUBPIXEL;
    let mut r: Rasterizer<()> = Rasterizer::new(4, 4);
    let c = Color::new(1, 2, 3);
    r.set_pixel(&Point::new(-1, 0, 0), &c);
    r.set_pixel(&Point::new(4 * s, 0, 0), &c);
    r.set_pixel(&Point::new(0, 4 * s, 0), &c);
    assert!(r.frame_buf().iter().all(|p| *p == Color::black()));
    r.set_pixel(&Point::new(2 * s + 200, s + 1, 0), &c);
    assert_eq!(px(&r, 2, 1), c);
    r.set_pixel2(3, 3, &c);
    assert_eq!(r.frame_buf()[0], Color::black());
    assert_eq!(px(&r, 3, 3), c);
    r.set_pixel2(-1, 2, &c);
    r.set_pixel2(4, 2, &c);
    assert_eq!(r.frame_buf().iter().filter(|p| **p == c).count(), 2);
}

#[test]
fn frame_data_is_flattened_channels() {
    let mut r: Rasterizer<()> = Rasterizer::new(2, 1);
    r.set_pixel2(1, 0, &Color::new(7, 8, 9));
    assert_eq!(r.frame_buf_data(), vec![0, 0, 0, 7, 8, 9]);
}

/// The two triangles of the demo scene, projected with model = identity,
/// the eye at (0, 0, 5) and a 45 degree, aspect 1, near 0.1, far 50
/// perspective onto a 700 x 700 screen (positions in sub-pixel units, depths
/// scaled by 1024).
#[test]
fn end_to_end_demo_scene() {
    let mut r: Rasterizer<()> = Rasterizer::new(700, 700);
    let near = tri(
        [(151404, 89600, -2496969), (89600, 151404, -2496969), (27796, 89600, -2496969)],
        (217, 238, 185),
    );
    let far = tri(
        [(165310, 67969, -2518955), (143678, 122047, -2518955), (67969, 100416, -2518955)],
        (185, 217, 238),
    );
    r.clear(Buffer::All);
    r.draw(&vec![near, far], Primitive::Triangle);
    assert_eq!(px(&r, 350, 500), Color::new(217, 238, 185));
    // where the two overlap the second has the smaller depth and wins
    assert_eq!(px(&r, 350, 400), Color::new(185, 217, 238));
    assert_eq!(px(&r, 350, 351), Color::new(217, 238, 185));
    // the image centre lies on the first triangle's lower edge
    assert_eq!(px(&r, 350, 350), Color::black());
    assert_eq!(px(&r, 600, 300), Color::new(185, 217, 238));
    assert_eq!(px(&r, 10, 10), Color::black());
    assert_eq!(px(&r, 690, 690), Color::black());
    assert_eq!(px(&r, 350, 650), Color::black());
}

fn lit(r: &Rasterizer<()>) -> Vec<(usize, usize)> {
    let mut out = Vec::new();
    for y in 0..r.height() {
        for x in 0..r.width() {
            if px(r, x, y) == Color::new(238, 217, 185) {
                out.push((x, y));
            }
        }
    }
    out.sort();
    out
}

fn at(x: i64, y: i64) -> Point {
    Point::new(x * SUBPIXEL, y * SUBPIXEL, 0)
}

#[test]
fn line_shallow_rounds_halves_up() {
    let mut r: Rasterizer<()> = Rasterizer::new(6, 6);
    r.draw_line(at(0, 0), at(4, 2));
    assert_eq!(lit(&r), vec![(0, 0), (1, 1), (2, 1), (3, 2), (4, 2)]);
    let mut back: Rasterizer<()> = Rasterizer::new(6, 6);
    back.draw_line(at(4, 2), at(0, 0));
    assert_eq!(lit(&back), lit(&r));
}

#[test]
fn line_steep_rounds_halves_down() {
    let mut r: Rasterizer<()> = Rasterizer::new(6, 6);
    r.draw_line(at(0, 0), at(1, 3));
    assert_eq!(lit(&r), vec![(0, 0), (0, 1), (1, 2), (1, 3)]);
}

#[test]
fn line_descending_and_single_point() {
    let mut r: Rasterizer<()> = Rasterizer::new(6, 6);
    r.draw_line(at(0, 3), at(3, 0));
    assert_eq!(lit(&r), vec![(0, 3), (1, 2), (2, 1), (3, 0)]);
    let mut p: Rasterizer<()> = Rasterizer::new(6, 6);
    p.draw_line(at(2, 2), Point::new(2 * SUBPIXEL + 100, 2 * SUBPIXEL + 5, 0));
    assert_eq!(lit(&p), vec![(2, 2)]);
    assert!(p.depth_buf().iter().all(|d| *d == 0));
}

#[test]
fn line_off_screen_pixels_are_skipped() {
    let mut r: Rasterizer<()> = Rasterizer::new(4, 4);
    r.draw_line(at(-2, 0), at(2, 0));
    assert_eq!(lit(&r), vec![(0, 0), (1, 0), (2, 0)]);
    // a negative coordinate is truncated toward zero
    let mut z: Rasterizer<()> = Rasterizer::new(4, 4);
    z.draw_line(Point::new(-SUBPIXEL / 2, 0, 0), at(1, 0));
    assert_eq!(lit(&z), vec![(0, 0), (1, 0)]);
}

#[test]
fn wireframe_outlines_the_triangle() {
    let mut r: Rasterizer<()> = Rasterizer::new(6, 6);
    let t = tri([(0, 0, 0), (4 * SUBPIXEL, 0, 0), (0, 4 * SUBPIXEL, 0)], (1, 1, 1));
    r.rasterize_wireframe(&t);
    let pts = lit(&r);
    assert_eq!(pts.len(), 12);
    assert!(pts.contains(&(2, 2)) && pts.contains(&(0, 4)) && pts.contains(&(4, 0)));
    assert!(!pts.contains(&(1, 1)));
}

#[test]
fn drawing_a_list_twice_matches_drawing_it_once() {
    let s = SUBPIXEL;
    let a = tri([(0, 0, -10), (7 * s, 0, -10), (0, 7 * s, -10)], (1, 2, 3));
    let b = tri([(s, s, -20), (8 * s, 2 * s, -5), (3 * s, 8 * s, -30)], (4, 5, 6));
    let mut once: Rasterizer<()> = Rasterizer::new(8, 8);
    once.draw(&vec![a, b], Primitive::Triangle);
    let mut twice: Rasterizer<()> = Rasterizer::new(8, 8);
    twice.draw(&vec![a, b], Primitive::Triangle);
    twice.draw(&vec![a, b], Primitive::Triangle);
    assert_eq!(once.frame_buf(), twice.frame_buf());
    assert_eq!(once.depth_buf(), twice.depth_buf());
    assert!(once.frame_buf().iter().any(|c| *c == Color::new(1, 2, 3)));
    assert!(once.frame_buf().iter().any(|c| *c == Color::new(4, 5, 6)));
}
