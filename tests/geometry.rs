use tinyrender::{barycenter, Vec2i};

#[test]
fn vec2i_new_keeps_coordinates() {
    let v = Vec2i::new(-3, 7);
    assert_eq!(v.x, -3);
    assert_eq!(v.y, 7);
}

#[test]
fn interior_point_has_positive_weights_summing_to_one() {
    let (a, b, c) = (Vec2i::new(0, 0), Vec2i::new(10, 0), Vec2i::new(0, 10));
    let w = barycenter(a, b, c, Vec2i::new(2, 3)).unwrap();
    assert!(w.w0 > 0 && w.w1 > 0 && w.w2 > 0);
    assert_eq!(w.w0 + w.w1 + w.w2, w.den);
    assert_eq!((w.w0, w.w1, w.w2, w.den), (50, 20, 30, 100));
    // the weights rebuild the point
    assert_eq!(w.w0 * 0 + w.w1 * 10 + w.w2 * 0, w.den * 2);
    assert_eq!(w.w0 * 0 + w.w1 * 0 + w.w2 * 10, w.den * 3);
}

#[test]
fn clockwise_triangle_gets_positive_denominator() {
    let (a, b, c) = (Vec2i::new(0, 0), Vec2i::new(0, 10), Vec2i::new(10, 0));
    let w = barycenter(a, b, c, Vec2i::new(2, 3)).unwrap();
    assert_eq!((w.w0, w.w1, w.w2, w.den), (50, 30, 20, 100));
}

#[test]
fn edge_point_has_zero_opposite_weight() {
    let (a, b, c) = (Vec2i::new(0, 0), Vec2i::new(10, 0), Vec2i::new(0, 10));
    // on edge b-c, opposite vertex a
    let w = barycenter(a, b, c, Vec2i::new(5, 5)).unwrap();
    assert_eq!(w.w0, 0);
    assert!(w.w1 > 0 && w.w2 > 0);
    // on edge a-b, opposite vertex c
    let w = barycenter(a, b, c, Vec2i::new(4, 0)).unwrap();
    assert_eq!(w.w2, 0);
    // on edge c-a, opposite vertex b
    let w = barycenter(a, b, c, Vec2i::new(0, 4)).unwrap();
    assert_eq!(w.w1, 0);
}

#[test]
fn vertex_weights_are_unit() {
    let (a, b, c) = (Vec2i::new(3, 1), Vec2i::new(17, 4), Vec2i::new(6, 15));
    let wa = barycenter(a, b, c, a).unwrap();
    assert_eq!((wa.w0, wa.w1, wa.w2), (wa.den, 0, 0));
    let wb = barycenter(a, b, c, b).unwrap();
    assert_eq!((wb.w0, wb.w1, wb.w2), (0, wb.den, 0));
    let wc = barycenter(a, b, c, c).unwrap();
    assert_eq!((wc.w0, wc.w1, wc.w2), (0, 0, wc.den));
}

#[test]
fn outside_point_has_a_negative_weight() {
    let (a, b, c) = (Vec2i::new(0, 0), Vec2i::new(10, 0), Vec2i::new(0, 10));
    let w = barycenter(a, b, c, Vec2i::new(8, 8)).unwrap();
    assert!(w.w0 < 0);
}

#[test]
fn collinear_triangle_has_no_weights() {
    let (a, b, c) = (Vec2i::new(0, 0), Vec2i::new(5, 5), Vec2i::new(10, 10));
    assert!(barycenter(a, b, c, Vec2i::new(5, 5)).is_none());
    assert!(barycenter(a, a, a, a).is_none());
}

#[test]
fn extreme_coordinates_do_not_overflow() {
    let (a, b, c) = (Vec2i::new(i32::MIN, i32::MIN), Vec2i::new(i32::MAX, i32::MIN), Vec2i::new(i32::MIN, i32::MAX));
    let w = barycenter(a, b, c, Vec2i::new(0, 0)).unwrap();
    assert_eq!(w.w0 + w.w1 + w.w2, w.den);
    assert!(w.den > 0);
}
