use tinyrender::{
    draw_triangle, interpolate, rasterize_triangle, shade, DepthBuffer, Image, ScreenTriangle, ScreenVertex, Vec2i,
    RGB,
};

fn vertex(x: i32, y: i32, depth: i32, w: u16) -> ScreenVertex {
    ScreenVertex::new(Vec2i::new(x, y), depth, w)
}

fn flat(a: (i32, i32), b: (i32, i32), c: (i32, i32), depth: i32) -> ScreenTriangle {
    ScreenTriangle::new(vertex(a.0, a.1, depth, 1), vertex(b.0, b.1, depth, 1), vertex(c.0, c.1, depth, 1))
}

#[test]
fn interpolate_rounds_down() {
    assert_eq!(interpolate(1, 1, 2, 10, 20, 30), 22);
    assert_eq!(interpolate(1, 1, 0, -3, -4, 0), -4);
    assert_eq!(interpolate(5, 0, 0, i32::MIN, 7, 9), i32::MIN);
    assert_eq!(interpolate(0, 0, 3, 1, 2, i32::MAX), i32::MAX);
}

#[test]
fn depth_buffer_starts_most_negative() {
    let d = DepthBuffer::new(4, 3);
    for y in 0..3 {
        for x in 0..4 {
            assert_eq!(d.get(x, y), i32::MIN);
        }
    }
}

#[test]
fn small_triangle_covers_expected_pixels() {
    let t = flat((0, 0), (3, 0), (0, 3), 5);
    let mut d = DepthBuffer::new(5, 5);
    let frags = rasterize_triangle(&t, &mut d);
    let pixels: Vec<(usize, usize)> = frags.iter().map(|f| (f.x, f.y)).collect();
    assert_eq!(pixels, vec![(0, 0), (1, 0), (2, 0), (3, 0), (0, 1), (1, 1), (2, 1), (0, 2), (1, 2), (0, 3)]);
    for f in &frags {
        assert_eq!(f.depth, 5);
        assert_eq!(d.get(f.x, f.y), 5);
    }
    assert_eq!(d.get(4, 0), i32::MIN);
    assert_eq!(d.get(2, 2), i32::MIN);
}

#[test]
fn nearer_triangle_wins_and_farther_is_hidden() {
    let mut d = DepthBuffer::new(10, 10);
    let mut img = Image::new(10, 10);
    let near = flat((0, 0), (9, 0), (0, 9), 50);
    let far = flat((0, 0), (9, 0), (0, 9), 10);
    draw_triangle(&near, RGB::red(), &mut d, &mut img);
    draw_triangle(&far, RGB::blue(), &mut d, &mut img);
    assert_eq!(img.get(1, 1), RGB::red());
    assert_eq!(d.get(1, 1), 50);
    // equal depth does not pass the strict test
    let same = flat((0, 0), (9, 0), (0, 9), 50);
    let frags = rasterize_triangle(&same, &mut d);
    assert!(frags.is_empty());
}

#[test]
fn redrawing_is_idempotent() {
    let t = ScreenTriangle::new(vertex(2, 1, 100, 300), vertex(37, 9, -40, 120), vertex(15, 30, 7, 900));
    let mut d = DepthBuffer::new(40, 40);
    let mut img = Image::new(40, 40);
    draw_triangle(&t, RGB::green(), &mut d, &mut img);
    let (d1, i1) = (d.data.clone(), img.data.clone());
    draw_triangle(&t, RGB::green(), &mut d, &mut img);
    assert_eq!(d.data, d1);
    assert_eq!(img.data, i1);
    assert!(rasterize_triangle(&t, &mut d).is_empty());
}

#[test]
fn vertex_fragment_reproduces_vertex_attributes() {
    let t = ScreenTriangle::new(vertex(2, 2, 100, 300), vertex(30, 4, -40, 120), vertex(10, 25, 7, 900));
    let mut d = DepthBuffer::new(40, 40);
    let frags = rasterize_triangle(&t, &mut d);
    let at = |x: usize, y: usize| frags.iter().find(|f| f.x == x && f.y == y).copied().unwrap();
    let fa = at(2, 2);
    assert!(fa.p0 > 0 && fa.p1 == 0 && fa.p2 == 0);
    assert_eq!(fa.depth, 100);
    assert_eq!(interpolate(fa.p0, fa.p1, fa.p2, 11, 22, 33), 11);
    let fb = at(30, 4);
    assert!(fb.p0 == 0 && fb.p1 > 0 && fb.p2 == 0);
    assert_eq!(fb.depth, -40);
    let fc = at(10, 25);
    assert!(fc.p0 == 0 && fc.p1 == 0 && fc.p2 > 0);
    assert_eq!(interpolate(fc.p0, fc.p1, fc.p2, 11, 22, 33), 33);
}

#[test]
fn perspective_weights_favour_the_nearer_vertex() {
    // midpoint of an edge whose ends have w 1 and 3: the screen weights are
    // equal, the perspective-correct ones are 3 : 1
    let t = ScreenTriangle::new(vertex(0, 0, 0, 1), vertex(20, 0, 0, 3), vertex(0, 20, 0, 1));
    let mut d = DepthBuffer::new(30, 30);
    let frags = rasterize_triangle(&t, &mut d);
    let f = frags.iter().find(|f| f.x == 10 && f.y == 0).unwrap();
    assert_eq!(f.p2, 0);
    assert_eq!(f.p0, 3 * f.p1);
    assert_eq!(interpolate(f.p0, f.p1, f.p2, 0, 400, 0), 100);
}

#[test]
fn collinear_triangle_writes_nothing() {
    let t = flat((0, 0), (5, 5), (9, 9), 10);
    let mut d = DepthBuffer::new(10, 10);
    let mut img = Image::new(10, 10);
    let before = (d.data.clone(), img.data.clone());
    draw_triangle(&t, RGB::white(), &mut d, &mut img);
    assert_eq!((d.data.clone(), img.data.clone()), before);
    assert!(rasterize_triangle(&t, &mut d).is_empty());
}

#[test]
fn triangle_outside_the_frame_writes_nothing() {
    let t = flat((-50, -50), (-10, -50), (-50, -10), 10);
    let mut d = DepthBuffer::new(10, 10);
    assert!(rasterize_triangle(&t, &mut d).is_empty());
    let t = flat((100, 100), (120, 100), (100, 130), 10);
    assert!(rasterize_triangle(&t, &mut d).is_empty());
}

#[test]
fn triangle_clipped_by_the_frame_edges() {
    let t = flat((-5, -5), (20, -5), (-5, 20), 10);
    let mut d = DepthBuffer::new(10, 10);
    let frags = rasterize_triangle(&t, &mut d);
    // pixels with x + y <= 15 inside the 10 x 10 frame
    let expected = (0..10).flat_map(|y| (0..10).map(move |x| (x, y))).filter(|&(x, y)| x + y <= 15).count();
    assert_eq!(frags.len(), expected);
}

#[test]
fn scenario_single_white_triangle_ambient_only() {
    let t = flat((400, 10), (10, 790), (790, 790), 0);
    let mut d = DepthBuffer::new(800, 800);
    let mut img = Image::new(800, 800);
    let color = shade(90, RGB::white(), 0, false);
    assert_eq!(color, RGB::new(90, 90, 90));
    draw_triangle(&t, color, &mut d, &mut img);
    let mut colored = 0usize;
    for y in 0..800 {
        for x in 0..800 {
            let c = img.get(x, y);
            if c != RGB::black() {
                assert_eq!(c, color);
                colored += 1;
            }
        }
    }
    // shoelace area of the triangle
    let twice: i64 = (10 - 400) * (790 - 10) - (790 - 10) * (790 - 400);
    let area = twice.abs() as f64 / 2.0;
    assert_eq!(area, 304200.0);
    assert!(((colored as f64) - area).abs() <= area * 0.01, "colored {}", colored);
}
