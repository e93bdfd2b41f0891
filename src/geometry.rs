use vstd::prelude::*;

verus! {

/// A point or vector with integer coordinates (screen pixels).
#[derive(Clone, Copy, Debug, PartialEq, Eq, Structural)]
pub struct Vec2i {
    pub x: i32,
    pub y: i32,
}

impl Vec2i {
    pub fn new(x: i32, y: i32) -> (r: Vec2i)
        ensures
            r.x == x,
            r.y == y,
    {
        Vec2i { x, y }
    }
}

/// Twice the signed area of the triangle `a b c`: positive when the
/// vertices turn counter-clockwise, zero when they are collinear.
pub open spec fn orient(a: Vec2i, b: Vec2i, c: Vec2i) -> int {
    (b.x - a.x) * (c.y - a.y) - (b.y - a.y) * (c.x - a.x)
}

/// `v` with the sign flipped when `o` is negative.
pub open spec fn signed(o: int, v: int) -> int {
    if o < 0 { -v } else { v }
}

/// Barycentric weights of a point with respect to a triangle, as a common
/// denominator and three numerators: weight `k` is `wk / den`.
#[derive(Clone, Copy, Debug, PartialEq, Eq, Structural)]
pub struct Barycentric {
    pub w0: i128,
    pub w1: i128,
    pub w2: i128,
    pub den: i128,
}

/// The weights of `p` in triangle `a b c`, normalised to a positive
/// denominator. Weight `k` is the area of the triangle formed by `p` and the
/// edge opposite vertex `k`, over the area of `a b c`.
pub open spec fn bary_spec(a: Vec2i, b: Vec2i, c: Vec2i, p: Vec2i) -> Barycentric {
    let o = orient(a, b, c);
    Barycentric {
        w0: signed(o, orient(p, b, c)) as i128,
        w1: signed(o, orient(a, p, c)) as i128,
        w2: signed(o, orient(a, b, p)) as i128,
        den: signed(o, o) as i128,
    }
}

impl Barycentric {
    /// The point lies in the closed triangle: no weight is negative.
    pub open spec fn inside(self) -> bool {
        self.w0 >= 0 && self.w1 >= 0 && self.w2 >= 0
    }
}

proof fn lemma_mul_bound(x: int, y: int)
    requires
        -0x2_0000_0000 < x < 0x2_0000_0000,
        -0x2_0000_0000 < y < 0x2_0000_0000,
    ensures
        -0x4_0000_0000_0000_0000 < x * y < 0x4_0000_0000_0000_0000,
{
    assert(-0x4_0000_0000_0000_0000 < x * y < 0x4_0000_0000_0000_0000) by (nonlinear_arith)
        requires
            -0x2_0000_0000 < x < 0x2_0000_0000,
            -0x2_0000_0000 < y < 0x2_0000_0000,
    ;
}

/// Barycentric weights of `p` in triangle `a b c`, by the cross product of
/// the x- and y-components of the edges. A triangle of zero area has none.
pub fn barycenter(a: Vec2i, b: Vec2i, c: Vec2i, p: Vec2i) -> (r: Option<Barycentric>)
    ensures
        r is None <==> orient(a, b, c) == 0,
        r matches Some(w) ==> w == bary_spec(a, b, c, p) && w.den > 0 && w.w0 + w.w1 + w.w2 == w.den,
{
    let v1x = c.x as i128 - a.x as i128;
    let v1y = b.x as i128 - a.x as i128;
    let v1z = a.x as i128 - p.x as i128;
    let v2x = c.y as i128 - a.y as i128;
    let v2y = b.y as i128 - a.y as i128;
    let v2z = a.y as i128 - p.y as i128;
    proof {
        lemma_mul_bound(v1y as int, v2z as int);
        lemma_mul_bound(v1z as int, v2y as int);
        lemma_mul_bound(v1z as int, v2x as int);
        lemma_mul_bound(v1x as int, v2z as int);
        lemma_mul_bound(v1x as int, v2y as int);
        lemma_mul_bound(v1y as int, v2x as int);
        assert(v1y * v2z - v1z * v2y == -orient(a, b, p)) by (nonlinear_arith)
            requires v1y == b.x - a.x, v1z == a.x - p.x, v2y == b.y - a.y, v2z == a.y - p.y;
        assert(v1z * v2x - v1x * v2z == -orient(a, p, c)) by (nonlinear_arith)
            requires v1x == c.x - a.x, v1z == a.x - p.x, v2x == c.y - a.y, v2z == a.y - p.y;
        assert(v1x * v2y - v1y * v2x == -orient(a, b, c)) by (nonlinear_arith)
            requires v1x == c.x - a.x, v1y == b.x - a.x, v2x == c.y - a.y, v2y == b.y - a.y;
        assert(orient(a, b, c) - orient(a, b, p) - orient(a, p, c) == orient(p, b, c)) by (nonlinear_arith);
    }
    let ux = v1y * v2z - v1z * v2y;
    let uy = v1z * v2x - v1x * v2z;
    let uz = v1x * v2y - v1y * v2x;
    if uz == 0 {
        None
    } else if uz < 0 {
        Some(Barycentric { w0: ux + uy - uz, w1: -uy, w2: -ux, den: -uz })
    } else {
        Some(Barycentric { w0: uz - ux - uy, w1: uy, w2: ux, den: uz })
    }
}

/// Bound on screen coordinates: within it every weight and product that the
/// rasterizer forms fits in 128 bits.
pub const MAX_COORD: i32 = 0x100_0000;

pub open spec fn in_range(p: Vec2i) -> bool {
    -MAX_COORD <= p.x <= MAX_COORD && -MAX_COORD <= p.y <= MAX_COORD
}

pub proof fn lemma_orient_fits(a: Vec2i, b: Vec2i, c: Vec2i)
    ensures
        -0x8_0000_0000_0000_0000 < orient(a, b, c) < 0x8_0000_0000_0000_0000,
{
    lemma_mul_bound(b.x - a.x, c.y - a.y);
    lemma_mul_bound(b.y - a.y, c.x - a.x);
}

/// Within the coordinate bound twice an area stays under 2^51.
pub proof fn lemma_orient_small(a: Vec2i, b: Vec2i, c: Vec2i)
    requires
        in_range(a),
        in_range(b),
        in_range(c),
    ensures
        -0x8_0000_0000_0000 <= orient(a, b, c) <= 0x8_0000_0000_0000,
{
    let dx1 = b.x - a.x;
    let dy2 = c.y - a.y;
    let dy1 = b.y - a.y;
    let dx2 = c.x - a.x;
    assert(-0x4_0000_0000_0000 <= dx1 * dy2 <= 0x4_0000_0000_0000) by (nonlinear_arith)
        requires
            -0x200_0000 <= dx1 <= 0x200_0000,
            -0x200_0000 <= dy2 <= 0x200_0000,
    ;
    assert(-0x4_0000_0000_0000 <= dy1 * dx2 <= 0x4_0000_0000_0000) by (nonlinear_arith)
        requires
            -0x200_0000 <= dy1 <= 0x200_0000,
            -0x200_0000 <= dx2 <= 0x200_0000,
    ;
}

proof fn lemma_cramer(ux: int, uy: int, vx: int, vy: int, qx: int, qy: int)
    ensures
        (qx * vy - qy * vx) * ux + (ux * qy - uy * qx) * vx == (ux * vy - uy * vx) * qx,
{
    assert((qx * vy - qy * vx) * ux == qx * vy * ux - qy * vx * ux) by (nonlinear_arith);
    assert((ux * qy - uy * qx) * vx == ux * qy * vx - uy * qx * vx) by (nonlinear_arith);
    assert((ux * vy - uy * vx) * qx == ux * vy * qx - uy * vx * qx) by (nonlinear_arith);
    assert(qx * vy * ux == ux * vy * qx) by (nonlinear_arith);
    assert(qy * vx * ux == ux * qy * vx) by (nonlinear_arith);
    assert(uy * qx * vx == uy * vx * qx) by (nonlinear_arith);
}

/// One coordinate of the rebuilt point: with `o1`, `o2` the areas at the
/// second and third vertex, `(o - o1 - o2) * a + o1 * b + o2 * c == o * p`.
proof fn lemma_rebuild_coord(o: int, o1: int, o2: int, ax: int, bx: int, cx: int, px: int)
    requires
        o1 * (bx - ax) + o2 * (cx - ax) == o * (px - ax),
    ensures
        (o - o1 - o2) * ax + o1 * bx + o2 * cx == o * px,
{
    assert(o1 * (bx - ax) == o1 * bx - o1 * ax) by (nonlinear_arith);
    assert(o2 * (cx - ax) == o2 * cx - o2 * ax) by (nonlinear_arith);
    assert(o * (px - ax) == o * px - o * ax) by (nonlinear_arith);
    assert((o - o1 - o2) * ax == o * ax - o1 * ax - o2 * ax) by (nonlinear_arith);
}

/// The weights sum to the denominator, and they rebuild the point:
/// `w0 * a + w1 * b + w2 * c == den * p`.
pub proof fn lemma_bary_reconstructs(a: Vec2i, b: Vec2i, c: Vec2i, p: Vec2i)
    requires
        orient(a, b, c) != 0,
    ensures
        ({
            let w = bary_spec(a, b, c, p);
            &&& w.w0 + w.w1 + w.w2 == w.den
            &&& w.den > 0
            &&& w.w0 * a.x + w.w1 * b.x + w.w2 * c.x == w.den * p.x
            &&& w.w0 * a.y + w.w1 * b.y + w.w2 * c.y == w.den * p.y
        }),
{
    lemma_orient_fits(a, b, c);
    lemma_orient_fits(p, b, c);
    lemma_orient_fits(a, p, c);
    lemma_orient_fits(a, b, p);
    let o = orient(a, b, c);
    let o0 = orient(p, b, c);
    let o1 = orient(a, p, c);
    let o2 = orient(a, b, p);
    let (ux, uy, vx, vy, qx, qy) = (b.x - a.x, b.y - a.y, c.x - a.x, c.y - a.y, p.x - a.x, p.y - a.y);
    assert(o0 == o - o1 - o2) by (nonlinear_arith)
        requires o == orient(a, b, c), o0 == orient(p, b, c), o1 == orient(a, p, c), o2 == orient(a, b, p);
    lemma_cramer(ux, uy, vx, vy, qx, qy);
    lemma_cramer(uy, ux, vy, vx, qy, qx);
    assert(o1 == qx * vy - qy * vx);
    assert(o2 == ux * qy - uy * qx);
    lemma_rebuild_coord(o, o1, o2, a.x as int, b.x as int, c.x as int, p.x as int);
    assert(-o1 == qy * vx - qx * vy);
    assert(-o2 == uy * qx - ux * qy);
    assert((-o1) * uy + (-o2) * vy == (-o) * qy);
    assert(o1 * uy + o2 * vy == o * qy) by (nonlinear_arith)
        requires (-o1) * uy + (-o2) * vy == (-o) * qy;
    lemma_rebuild_coord(o, o1, o2, a.y as int, b.y as int, c.y as int, p.y as int);
    if o < 0 {
        assert((-o0) * a.x + (-o1) * b.x + (-o2) * c.x == (-o) * p.x) by (nonlinear_arith)
            requires o0 * a.x + o1 * b.x + o2 * c.x == o * p.x;
        assert((-o0) * a.y + (-o1) * b.y + (-o2) * c.y == (-o) * p.y) by (nonlinear_arith)
            requires o0 * a.y + o1 * b.y + o2 * c.y == o * p.y;
    }
}

/// `p` lies strictly on the inner side of each edge of a triangle of
/// non-zero area.
pub open spec fn strictly_inside(a: Vec2i, b: Vec2i, c: Vec2i, p: Vec2i) -> bool {
    let o = orient(a, b, c);
    &&& o != 0
    &&& orient(a, b, p) * o > 0
    &&& orient(b, c, p) * o > 0
    &&& orient(c, a, p) * o > 0
}

proof fn lemma_orient_cyclic(a: Vec2i, b: Vec2i, c: Vec2i)
    ensures
        orient(a, b, c) == orient(b, c, a),
        orient(a, b, c) == orient(c, a, b),
{
    assert(orient(a, b, c) == orient(b, c, a)) by (nonlinear_arith);
    assert(orient(a, b, c) == orient(c, a, b)) by (nonlinear_arith);
}

/// For a point strictly inside a triangle every weight is positive, and the
/// weights sum to one (`w0 + w1 + w2 == den`).
pub proof fn lemma_interior_weights_positive(a: Vec2i, b: Vec2i, c: Vec2i, p: Vec2i)
    requires
        strictly_inside(a, b, c, p),
    ensures
        ({
            let w = bary_spec(a, b, c, p);
            &&& w.w0 > 0
            &&& w.w1 > 0
            &&& w.w2 > 0
            &&& w.w0 + w.w1 + w.w2 == w.den
        }),
{
    lemma_bary_reconstructs(a, b, c, p);
    lemma_orient_cyclic(p, b, c);
    lemma_orient_cyclic(a, p, c);
    lemma_orient_fits(p, b, c);
    lemma_orient_fits(a, p, c);
    lemma_orient_fits(a, b, p);
    let o = orient(a, b, c);
    let o0 = orient(p, b, c);
    let o1 = orient(a, p, c);
    let o2 = orient(a, b, p);
    assert(o0 * o > 0 && o1 * o > 0 && o2 * o > 0);
    if o > 0 {
        assert(o0 > 0 && o1 > 0 && o2 > 0) by (nonlinear_arith)
            requires o0 * o > 0, o1 * o > 0, o2 * o > 0, o > 0;
    } else {
        assert(o0 < 0 && o1 < 0 && o2 < 0) by (nonlinear_arith)
            requires o0 * o > 0, o1 * o > 0, o2 * o > 0, o < 0;
    }
}

/// A point on the line through two vertices has weight zero at the third.
pub proof fn lemma_edge_weight_zero(a: Vec2i, b: Vec2i, c: Vec2i, p: Vec2i)
    requires
        orient(a, b, c) != 0,
    ensures
        orient(b, c, p) == 0 ==> bary_spec(a, b, c, p).w0 == 0,
        orient(c, a, p) == 0 ==> bary_spec(a, b, c, p).w1 == 0,
        orient(a, b, p) == 0 ==> bary_spec(a, b, c, p).w2 == 0,
{
    lemma_orient_cyclic(p, b, c);
    lemma_orient_cyclic(a, p, c);
}

/// At a vertex the weights are one at that vertex and zero elsewhere.
pub proof fn lemma_vertex_weights(a: Vec2i, b: Vec2i, c: Vec2i)
    requires
        orient(a, b, c) != 0,
    ensures
        ({
            let w = bary_spec(a, b, c, a);
            w.w0 == w.den && w.w1 == 0 && w.w2 == 0
        }),
        ({
            let w = bary_spec(a, b, c, b);
            w.w0 == 0 && w.w1 == w.den && w.w2 == 0
        }),
        ({
            let w = bary_spec(a, b, c, c);
            w.w0 == 0 && w.w1 == 0 && w.w2 == w.den
        }),
{
    lemma_orient_fits(a, b, c);
    assert(orient(a, a, c) == 0) by (nonlinear_arith);
    assert(orient(a, b, a) == 0) by (nonlinear_arith);
    assert(orient(b, b, c) == 0) by (nonlinear_arith);
    assert(orient(a, b, b) == 0) by (nonlinear_arith);
    assert(orient(c, b, c) == 0) by (nonlinear_arith);
    assert(orient(a, c, c) == 0) by (nonlinear_arith);
}

} // verus!
