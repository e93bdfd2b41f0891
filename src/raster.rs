use vstd::prelude::*;
use vstd::arithmetic::div_mod::{
    lemma_div_is_ordered, lemma_div_multiples_vanish, lemma_fundamental_div_mod,
    lemma_fundamental_div_mod_converse_div,
};
use crate::frame::{cell, lemma_cell_injective, Image, RGB};
use crate::geometry::{
    bary_spec, barycenter, in_range, lemma_bary_reconstructs, lemma_orient_small, lemma_vertex_weights, orient,
    Barycentric, Vec2i, MAX_COORD,
};

verus! {

/// Upper bound on a perspective-correct weight (2^84).
pub const MAX_WEIGHT: i128 = 0x10_0000_0000_0000_0000_0000;

/// A vertex after the homogeneous divide: its pixel position, its depth
/// (larger is nearer) and its homogeneous `w` as a positive fixed-point
/// value, kept for perspective-correct interpolation.
#[derive(Clone, Copy, Debug, PartialEq, Eq, Structural)]
pub struct ScreenVertex {
    pub pos: Vec2i,
    pub depth: i32,
    pub w: u16,
}

impl ScreenVertex {
    pub open spec fn wf(&self) -> bool {
        in_range(self.pos) && self.w >= 1
    }

    pub fn new(pos: Vec2i, depth: i32, w: u16) -> (v: ScreenVertex)
        ensures
            v == (ScreenVertex { pos, depth, w }),
    {
        ScreenVertex { pos, depth, w }
    }

    /// Whether the vertex lies within the coordinate bound and has a
    /// positive `w`.
    pub fn is_valid(&self) -> (r: bool)
        ensures
            r == self.wf(),
    {
        -MAX_COORD <= self.pos.x && self.pos.x <= MAX_COORD && -MAX_COORD <= self.pos.y
            && self.pos.y <= MAX_COORD && self.w >= 1
    }
}

/// A triangle in screen space.
#[derive(Clone, Copy, Debug, PartialEq, Eq, Structural)]
pub struct ScreenTriangle {
    pub a: ScreenVertex,
    pub b: ScreenVertex,
    pub c: ScreenVertex,
}

impl ScreenTriangle {
    pub open spec fn wf(&self) -> bool {
        self.a.wf() && self.b.wf() && self.c.wf()
    }

    pub fn new(a: ScreenVertex, b: ScreenVertex, c: ScreenVertex) -> (t: ScreenTriangle)
        ensures
            t == (ScreenTriangle { a, b, c }),
    {
        ScreenTriangle { a, b, c }
    }

    pub fn is_valid(&self) -> (r: bool)
        ensures
            r == self.wf(),
    {
        self.a.is_valid() && self.b.is_valid() && self.c.is_valid()
    }

    /// Twice the signed screen-space area.
    pub open spec fn area2(&self) -> int {
        orient(self.a.pos, self.b.pos, self.c.pos)
    }
}

/// The pixel `(x, y)` as a point.
pub open spec fn pixel_point(x: int, y: int) -> Vec2i {
    Vec2i { x: x as i32, y: y as i32 }
}

/// Screen-space barycentric weights of pixel `(x, y)`.
pub open spec fn weights_at(t: ScreenTriangle, x: int, y: int) -> Barycentric {
    bary_spec(t.a.pos, t.b.pos, t.c.pos, pixel_point(x, y))
}

/// Pixel `(x, y)` lies in the closed triangle, which has non-zero area.
pub open spec fn covered(t: ScreenTriangle, x: int, y: int) -> bool {
    t.area2() != 0 && weights_at(t, x, y).inside()
}

/// Perspective-correct weights: each screen-space weight divided by its
/// vertex's `w`, all scaled by the product of the three `w`.
pub open spec fn persp_weights(t: ScreenTriangle, w: Barycentric) -> (int, int, int) {
    (w.w0 * (t.b.w * t.c.w), w.w1 * (t.a.w * t.c.w), w.w2 * (t.a.w * t.b.w))
}

/// The value of three vertex attributes under weights `p`, rounded down.
pub open spec fn interp(p: (int, int, int), a0: int, a1: int, a2: int) -> int {
    (p.0 * a0 + p.1 * a1 + p.2 * a2) / (p.0 + p.1 + p.2)
}

/// The perspective-correct depth of pixel `(x, y)`.
pub open spec fn frag_depth(t: ScreenTriangle, x: int, y: int) -> int {
    interp(persp_weights(t, weights_at(t, x, y)), t.a.depth as int, t.b.depth as int, t.c.depth as int)
}

pub open spec fn min3(a: int, b: int, c: int) -> int {
    if a <= b && a <= c { a } else if b <= c { b } else { c }
}

pub open spec fn max3(a: int, b: int, c: int) -> int {
    if a >= b && a >= c { a } else if b >= c { b } else { c }
}

proof fn lemma_weighted_bounds(p0: int, p1: int, p2: int, a0: int, a1: int, a2: int)
    requires
        p0 >= 0,
        p1 >= 0,
        p2 >= 0,
    ensures
        (p0 + p1 + p2) * min3(a0, a1, a2) <= p0 * a0 + p1 * a1 + p2 * a2,
        p0 * a0 + p1 * a1 + p2 * a2 <= (p0 + p1 + p2) * max3(a0, a1, a2),
{
    let m = min3(a0, a1, a2);
    let n = max3(a0, a1, a2);
    assert((p0 + p1 + p2) * m <= p0 * a0 + p1 * a1 + p2 * a2) by (nonlinear_arith)
        requires p0 >= 0, p1 >= 0, p2 >= 0, m <= a0, m <= a1, m <= a2;
    assert(p0 * a0 + p1 * a1 + p2 * a2 <= (p0 + p1 + p2) * n) by (nonlinear_arith)
        requires p0 >= 0, p1 >= 0, p2 >= 0, n >= a0, n >= a1, n >= a2;
}

/// Interpolates three attributes with non-negative weights, rounding down.
/// The result lies between the smallest and the largest attribute.
pub fn interpolate(p0: i128, p1: i128, p2: i128, a0: i32, a1: i32, a2: i32) -> (r: i32)
    requires
        0 <= p0 <= MAX_WEIGHT,
        0 <= p1 <= MAX_WEIGHT,
        0 <= p2 <= MAX_WEIGHT,
        p0 + p1 + p2 > 0,
    ensures
        r as int == interp((p0 as int, p1 as int, p2 as int), a0 as int, a1 as int, a2 as int),
        min3(a0 as int, a1 as int, a2 as int) <= r <= max3(a0 as int, a1 as int, a2 as int),
{
    let e0 = (a0 as i64 + 0x8000_0000) as u128;
    let e1 = (a1 as i64 + 0x8000_0000) as u128;
    let e2 = (a2 as i64 + 0x8000_0000) as u128;
    proof {
        assert(p0 * e0 <= MAX_WEIGHT * 0x1_0000_0000) by (nonlinear_arith)
            requires 0 <= p0 <= MAX_WEIGHT, 0 <= e0 <= 0x1_0000_0000;
        assert(p1 * e1 <= MAX_WEIGHT * 0x1_0000_0000) by (nonlinear_arith)
            requires 0 <= p1 <= MAX_WEIGHT, 0 <= e1 <= 0x1_0000_0000;
        assert(p2 * e2 <= MAX_WEIGHT * 0x1_0000_0000) by (nonlinear_arith)
            requires 0 <= p2 <= MAX_WEIGHT, 0 <= e2 <= 0x1_0000_0000;
    }
    let num = p0 as u128 * e0 + p1 as u128 * e1 + p2 as u128 * e2;
    let s = (p0 + p1 + p2) as u128;
    let q = num / s;
    proof {
        let k: int = 0x8000_0000;
        let n = p0 * a0 + p1 * a1 + p2 * a2;
        assert(p0 * e0 == p0 * a0 + p0 * k) by (nonlinear_arith)
            requires e0 == a0 + k;
        assert(p1 * e1 == p1 * a1 + p1 * k) by (nonlinear_arith)
            requires e1 == a1 + k;
        assert(p2 * e2 == p2 * a2 + p2 * k) by (nonlinear_arith)
            requires e2 == a2 + k;
        assert(k * s == p0 * k + p1 * k + p2 * k) by (nonlinear_arith)
            requires s == p0 + p1 + p2;
        assert(num == n + k * s);
        lemma_fundamental_div_mod(num as int, s as int);
        let r = num as int % s as int;
        assert(num as int == s * q + r);
        assert(n == (q - k) * s + r) by (nonlinear_arith)
            requires num == n + k * s, num == s * q + r;
        lemma_fundamental_div_mod_converse_div(n, s as int, q - k, r);
        lemma_weighted_bounds(p0 as int, p1 as int, p2 as int, a0 as int, a1 as int, a2 as int);
        let lo = min3(a0 as int, a1 as int, a2 as int);
        let hi = max3(a0 as int, a1 as int, a2 as int);
        lemma_div_is_ordered(s * lo, n, s as int);
        lemma_div_is_ordered(n, s * hi, s as int);
        lemma_div_multiples_vanish(lo, s as int);
        lemma_div_multiples_vanish(hi, s as int);
        assert(s * lo == (p0 + p1 + p2) * lo);
    }
    (q as i64 - 0x8000_0000) as i32
}

/// Pixel `(x, y)` lies in the triangle and its depth beats the one stored.
pub open spec fn passes(t: ScreenTriangle, d: DepthBuffer, x: int, y: int) -> bool {
    covered(t, x, y) && frag_depth(t, x, y) > d.at(x, y)
}

/// The pixel `(px, py)` comes before `(x, y)` in scan order: rows bottom
/// up, each row left to right.
pub open spec fn scanned_before(px: int, py: int, x: int, y: int) -> bool {
    py < y || (py == y && px < x)
}

proof fn lemma_covered_in_box(t: ScreenTriangle, x: int, y: int)
    requires
        covered(t, x, y),
        0 <= x <= MAX_COORD,
        0 <= y <= MAX_COORD,
    ensures
        min3(t.a.pos.x as int, t.b.pos.x as int, t.c.pos.x as int) <= x,
        x <= max3(t.a.pos.x as int, t.b.pos.x as int, t.c.pos.x as int),
        min3(t.a.pos.y as int, t.b.pos.y as int, t.c.pos.y as int) <= y,
        y <= max3(t.a.pos.y as int, t.b.pos.y as int, t.c.pos.y as int),
{
    let (a, b, c) = (t.a.pos, t.b.pos, t.c.pos);
    let p = pixel_point(x, y);
    lemma_bary_reconstructs(a, b, c, p);
    let w = bary_spec(a, b, c, p);
    let d = w.den as int;
    lemma_weighted_bounds(w.w0 as int, w.w1 as int, w.w2 as int, a.x as int, b.x as int, c.x as int);
    lemma_weighted_bounds(w.w0 as int, w.w1 as int, w.w2 as int, a.y as int, b.y as int, c.y as int);
    let (lx, hx) = (min3(a.x as int, b.x as int, c.x as int), max3(a.x as int, b.x as int, c.x as int));
    let (ly, hy) = (min3(a.y as int, b.y as int, c.y as int), max3(a.y as int, b.y as int, c.y as int));
    assert(lx <= x <= hx) by (nonlinear_arith)
        requires d > 0, d * lx <= d * x, d * x <= d * hx;
    assert(ly <= y <= hy) by (nonlinear_arith)
        requires d > 0, d * ly <= d * y, d * y <= d * hy;
}

/// Per-pixel depths of one pass, row-major with row 0 first; larger is
/// nearer.
#[derive(Debug)]
pub struct DepthBuffer {
    pub width: usize,
    pub height: usize,
    pub data: Vec<i32>,
}

impl DepthBuffer {
    pub open spec fn wf(&self) -> bool {
        self.data@.len() == self.width * self.height
    }

    pub open spec fn at(&self, x: int, y: int) -> i32 {
        self.data@[cell(self.width as int, x, y)]
    }

    /// A buffer holding the most negative depth everywhere, so that every
    /// first write succeeds.
    pub fn new(width: usize, height: usize) -> (d: DepthBuffer)
        requires
            width * height <= usize::MAX,
        ensures
            d.wf(),
            d.width == width,
            d.height == height,
            forall|x: int, y: int| 0 <= x < width && 0 <= y < height ==> #[trigger] d.at(x, y) == i32::MIN,
    {
        let n = width * height;
        let mut data: Vec<i32> = Vec::with_capacity(n);
        let mut i: usize = 0;
        while i < n
            invariant
                i <= n,
                data@.len() == i,
                forall|j: int| 0 <= j < i ==> data@[j] == i32::MIN,
            decreases n - i,
        {
            data.push(i32::MIN);
            i = i + 1;
        }
        let d = DepthBuffer { width, height, data };
        assert forall|x: int, y: int| 0 <= x < width && 0 <= y < height implies #[trigger] d.at(x, y)
            == i32::MIN by {
            lemma_cell_injective(width as int, height as int, x, y, x, y);
        }
        d
    }

    pub fn get(&self, x: usize, y: usize) -> (v: i32)
        requires
            self.wf(),
            x < self.width,
            y < self.height,
        ensures
            v == self.at(x as int, y as int),
    {
        proof {
            lemma_cell_injective(self.width as int, self.height as int, x as int, y as int, x as int, y as int);
        }
        let _n = self.data.len();
        self.data[y * self.width + x]
    }

    pub fn set(&mut self, x: usize, y: usize, v: i32)
        requires
            old(self).wf(),
            x < old(self).width,
            y < old(self).height,
        ensures
            final(self).wf(),
            final(self).width == old(self).width,
            final(self).height == old(self).height,
            forall|i: int, j: int|
                0 <= i < old(self).width && 0 <= j < old(self).height ==> #[trigger] final(self).at(i, j)
                    == if i == x && j == y { v } else { old(self).at(i, j) },
    {
        proof {
            lemma_cell_injective(self.width as int, self.height as int, x as int, y as int, x as int, y as int);
        }
        let _n = self.data.len();
        let k = y * self.width + x;
        self.data.set(k, v);
        proof {
            assert forall|i: int, j: int|
                0 <= i < self.width && 0 <= j < self.height implies #[trigger] self.at(i, j)
                    == if i == x && j == y { v } else { old(self).at(i, j) } by {
                lemma_cell_injective(self.width as int, self.height as int, x as int, y as int, i, j);
                if !(i == x && j == y) {
                    assert(cell(self.width as int, i, j) != k);
                }
            }
        }
    }
}

/// A pixel that passed the depth test, with its perspective-correct
/// weights (weight `k` is `pk / (p0 + p1 + p2)`) and its depth.
#[derive(Clone, Copy, Debug, PartialEq, Eq, Structural)]
pub struct Fragment {
    pub x: usize,
    pub y: usize,
    pub p0: i128,
    pub p1: i128,
    pub p2: i128,
    pub depth: i32,
}

/// `f` is the fragment that triangle `t` yields at its pixel against the
/// depths `d`.
pub open spec fn fragment_of(t: ScreenTriangle, d: DepthBuffer, f: Fragment) -> bool {
    &&& f.x < d.width
    &&& f.y < d.height
    &&& passes(t, d, f.x as int, f.y as int)
    &&& f.depth == frag_depth(t, f.x as int, f.y as int)
    &&& (f.p0 as int, f.p1 as int, f.p2 as int) == persp_weights(t, weights_at(t, f.x as int, f.y as int))
}

/// The colour of pixel `(x, y)` after `t` is drawn in `color` over the
/// depths `d` and the image `img`.
pub open spec fn color_after(t: ScreenTriangle, d: DepthBuffer, img: Image, color: RGB, x: int, y: int) -> RGB {
    if passes(t, d, x, y) { color } else { img.pixel(x, y) }
}

/// The depths after `t` is drawn over `d`.
pub open spec fn depth_after(t: ScreenTriangle, d: DepthBuffer, x: int, y: int) -> int {
    if passes(t, d, x, y) { frag_depth(t, x, y) } else { d.at(x, y) as int }
}

/// `after` and `frags` are what rasterizing `t` over `before` yields: each
/// pixel takes its depth under `depth_after`, and `frags` lists the pixels
/// that passed, each once, in scan order.
pub open spec fn rasterized(t: ScreenTriangle, before: DepthBuffer, after: DepthBuffer, frags: Seq<Fragment>) -> bool {
    &&& after.wf()
    &&& after.width == before.width
    &&& after.height == before.height
    &&& forall|x: int, y: int|
        0 <= x < before.width && 0 <= y < before.height ==> #[trigger] after.at(x, y) as int == depth_after(
            t,
            before,
            x,
            y,
        )
    &&& forall|k: int| 0 <= k < frags.len() ==> fragment_of(t, before, #[trigger] frags[k])
    &&& forall|k1: int, k2: int|
        0 <= k1 < k2 < frags.len() ==> scanned_before(
            #[trigger] frags[k1].x as int,
            frags[k1].y as int,
            #[trigger] frags[k2].x as int,
            frags[k2].y as int,
        )
    &&& forall|x: int, y: int|
        0 <= x < before.width && 0 <= y < before.height && #[trigger] passes(t, before, x, y) ==> exists|k: int|
            0 <= k < frags.len() && frags[k].x == x && frags[k].y == y
}

/// The state of a scan of `t` over `d0` that has reached pixel `(x, y)`:
/// every pixel before it has been tested and, where it passed, written and
/// reported, in scan order; no other pixel has changed.
pub open spec fn scan_state(
    t: ScreenTriangle,
    d0: DepthBuffer,
    d: DepthBuffer,
    frags: Seq<Fragment>,
    x: int,
    y: int,
) -> bool {
    &&& d.wf()
    &&& d.width == d0.width
    &&& d.height == d0.height
    &&& forall|px: int, py: int|
        0 <= px < d0.width && 0 <= py < d0.height ==> #[trigger] d.at(px, py) as int == if scanned_before(
            px,
            py,
            x,
            y,
        ) && passes(t, d0, px, py) {
            frag_depth(t, px, py)
        } else {
            d0.at(px, py) as int
        }
    &&& forall|k: int|
        0 <= k < frags.len() ==> fragment_of(t, d0, #[trigger] frags[k]) && scanned_before(
            frags[k].x as int,
            frags[k].y as int,
            x,
            y,
        )
    &&& forall|k1: int, k2: int|
        0 <= k1 < k2 < frags.len() ==> scanned_before(
            #[trigger] frags[k1].x as int,
            frags[k1].y as int,
            #[trigger] frags[k2].x as int,
            frags[k2].y as int,
        )
    &&& forall|px: int, py: int|
        0 <= px < d0.width && 0 <= py < d0.height && scanned_before(px, py, x, y) && #[trigger] passes(
            t,
            d0,
            px,
            py,
        ) ==> exists|k: int| 0 <= k < frags.len() && frags[k].x == px && frags[k].y == py
}

fn min_of3(a: i32, b: i32, c: i32) -> (r: i32)
    ensures
        r as int == min3(a as int, b as int, c as int),
{
    if a <= b && a <= c {
        a
    } else if b <= c {
        b
    } else {
        c
    }
}

fn max_of3(a: i32, b: i32, c: i32) -> (r: i32)
    ensures
        r as int == max3(a as int, b as int, c as int),
{
    if a >= b && a >= c {
        a
    } else if b >= c {
        b
    } else {
        c
    }
}

proof fn lemma_weight_bounds(w: int, big: int)
    requires
        0 <= w <= 0x8_0000_0000_0000,
        1 <= big <= 0xffff * 0xffff,
    ensures
        w <= w * big <= MAX_WEIGHT,
{
    assert(w <= w * big <= 0x8_0000_0000_0000 * 0xfffe_0001) by (nonlinear_arith)
        requires
            0 <= w <= 0x8_0000_0000_0000,
            1 <= big <= 0xfffe_0001,
    ;
    assert(0x8_0000_0000_0000 * 0xfffe_0001 <= MAX_WEIGHT);
}

proof fn lemma_w_product(u: u16, v: u16)
    requires
        u >= 1,
        v >= 1,
    ensures
        1 <= u * v <= 0xffff * 0xffff,
{
    assert(1 <= u * v <= 0xffff * 0xffff) by (nonlinear_arith)
        requires
            1 <= u <= 0xffff,
            1 <= v <= 0xffff,
    ;
}

/// Tests pixel `(x, y)` against `t` and the depth buffer, writing and
/// reporting it when it passes.
fn scan_pixel(t: &ScreenTriangle, depth: &mut DepthBuffer, frags: &mut Vec<Fragment>, x: usize, y: usize, Ghost(d0): Ghost<DepthBuffer>)
    requires
        t.wf(),
        d0.width <= MAX_COORD,
        d0.height <= MAX_COORD,
        x < d0.width,
        y < d0.height,
        scan_state(*t, d0, *old(depth), old(frags)@, x as int, y as int),
    ensures
        scan_state(*t, d0, *final(depth), final(frags)@, x + 1, y as int),
{
    let ghost fr0 = frags@;
    let (a, b, c) = (t.a.pos, t.b.pos, t.c.pos);
    let p = Vec2i::new(x as i32, y as i32);
    assert(p == pixel_point(x as int, y as int));
    let bo = barycenter(a, b, c, p);
    if let Some(bw) = bo {
        if bw.w0 >= 0 && bw.w1 >= 0 && bw.w2 >= 0 {
            proof {
                lemma_orient_small(p, b, c);
                lemma_orient_small(a, p, c);
                lemma_orient_small(a, b, p);
                lemma_bary_reconstructs(a, b, c, p);
                lemma_w_product(t.b.w, t.c.w);
                lemma_w_product(t.a.w, t.c.w);
                lemma_w_product(t.a.w, t.b.w);
                lemma_weight_bounds(bw.w0 as int, t.b.w * t.c.w);
                lemma_weight_bounds(bw.w1 as int, t.a.w * t.c.w);
                lemma_weight_bounds(bw.w2 as int, t.a.w * t.b.w);
            }
            let p0 = bw.w0 * (t.b.w as i128 * t.c.w as i128);
            let p1 = bw.w1 * (t.a.w as i128 * t.c.w as i128);
            let p2 = bw.w2 * (t.a.w as i128 * t.b.w as i128);
            let fd = interpolate(p0, p1, p2, t.a.depth, t.b.depth, t.c.depth);
            let cur = depth.get(x, y);
            assert(covered(*t, x as int, y as int));
            assert(cur == d0.at(x as int, y as int));
            if fd > cur {
                depth.set(x, y, fd);
                let f = Fragment { x, y, p0, p1, p2, depth: fd };
                frags.push(f);
                proof {
                    assert(fragment_of(*t, d0, f));
                    assert(frags@[frags@.len() - 1] == f);
                    assert forall|px: int, py: int|
                        0 <= px < d0.width && 0 <= py < d0.height && scanned_before(px, py, x + 1, y as int)
                            && #[trigger] passes(*t, d0, px, py) implies exists|k: int|
                        0 <= k < frags@.len() && frags@[k].x == px && frags@[k].y == py by {
                        if px == x && py == y {
                            assert(frags@[frags@.len() - 1].x == px);
                        } else {
                            let k = choose|k: int| 0 <= k < fr0.len() && fr0[k].x == px && fr0[k].y == py;
                            assert(frags@[k] == fr0[k]);
                        }
                    }
                }
                return;
            }
        }
    }
    proof {
        assert(!passes(*t, d0, x as int, y as int));
        assert forall|px: int, py: int|
            0 <= px < d0.width && 0 <= py < d0.height && scanned_before(px, py, x + 1, y as int)
                && #[trigger] passes(*t, d0, px, py) implies exists|k: int|
            0 <= k < frags@.len() && frags@[k].x == px && frags@[k].y == py by {
            assert(scanned_before(px, py, x as int, y as int));
        }
    }
}

/// Moving from just past the end of the box row `y` to the start of the
/// next row skips only pixels that the triangle does not cover.
proof fn lemma_next_row(
    t: ScreenTriangle,
    d0: DepthBuffer,
    d: DepthBuffer,
    frags: Seq<Fragment>,
    xmin: int,
    xmax: int,
    y: int,
)
    requires
        scan_state(t, d0, d, frags, xmax + 1, y),
        forall|px: int, py: int|
            0 <= px < d0.width && 0 <= py < d0.height && #[trigger] covered(t, px, py) ==> xmin <= px
                <= xmax,
    ensures
        scan_state(t, d0, d, frags, xmin, y + 1),
{
    assert forall|px: int, py: int|
        0 <= px < d0.width && 0 <= py < d0.height && passes(t, d0, px, py) implies (scanned_before(
            px,
            py,
            xmax + 1,
            y,
        ) <==> scanned_before(px, py, xmin, y + 1)) by {
        assert(covered(t, px, py));
    }
    assert forall|px: int, py: int|
        0 <= px < d0.width && 0 <= py < d0.height implies #[trigger] d.at(px, py) as int == if scanned_before(
            px,
            py,
            xmin,
            y + 1,
        ) && passes(t, d0, px, py) {
            frag_depth(t, px, py)
        } else {
            d0.at(px, py) as int
        } by {
        if passes(t, d0, px, py) {
            assert(covered(t, px, py));
        }
    }
    assert forall|k: int| 0 <= k < frags.len() implies scanned_before(
        #[trigger] frags[k].x as int,
        frags[k].y as int,
        xmin,
        y + 1,
    ) by {
        assert(fragment_of(t, d0, frags[k]));
        assert(covered(t, frags[k].x as int, frags[k].y as int));
    }
    assert forall|px: int, py: int|
        0 <= px < d0.width && 0 <= py < d0.height && scanned_before(px, py, xmin, y + 1) && #[trigger] passes(
            t,
            d0,
            px,
            py,
        ) implies exists|k: int| 0 <= k < frags.len() && frags[k].x == px && frags[k].y == py by {
        assert(covered(t, px, py));
        assert(scanned_before(px, py, xmax + 1, y));
    }
}

/// Rasterizes `t` against `depth`: every pixel of the frame that lies in
/// the triangle and whose perspective-correct depth is strictly greater than
/// the stored one takes that depth. The passing pixels are returned in scan
/// order with their weights, for the caller to shade. A triangle of zero
/// area covers nothing.
pub fn rasterize_triangle(t: &ScreenTriangle, depth: &mut DepthBuffer) -> (frags: Vec<Fragment>)
    requires
        t.wf(),
        old(depth).wf(),
        old(depth).width <= MAX_COORD,
        old(depth).height <= MAX_COORD,
    ensures
        rasterized(*t, *old(depth), *final(depth), frags@),
        t.area2() == 0 ==> frags@.len() == 0,
{
    let ghost d0 = *depth;
    let mut frags: Vec<Fragment> = Vec::new();
    let (a, b, c) = (t.a.pos, t.b.pos, t.c.pos);
    let minx = min_of3(a.x, b.x, c.x);
    let maxx = max_of3(a.x, b.x, c.x);
    let miny = min_of3(a.y, b.y, c.y);
    let maxy = max_of3(a.y, b.y, c.y);
    let w = depth.width;
    let h = depth.height;
    proof {
        assert forall|px: int, py: int|
            0 <= px < w && 0 <= py < h && #[trigger] covered(*t, px, py) implies minx <= px <= maxx && miny
                <= py <= maxy by {
            lemma_covered_in_box(*t, px, py);
        }
    }
    if w == 0 || h == 0 || maxx < 0 || maxy < 0 || minx as i64 >= w as i64 || miny as i64 >= h as i64 {
        return frags;
    }
    let xmin: usize = if minx < 0 { 0 } else { minx as usize };
    let xmax: usize = if maxx as i64 >= w as i64 { w - 1 } else { maxx as usize };
    let ymin: usize = if miny < 0 { 0 } else { miny as usize };
    let ymax: usize = if maxy as i64 >= h as i64 { h - 1 } else { maxy as usize };
    proof {
        assert forall|px: int, py: int|
            0 <= px < w && 0 <= py < h && #[trigger] covered(*t, px, py) implies xmin <= px <= xmax && ymin
                <= py <= ymax by {
            lemma_covered_in_box(*t, px, py);
        }
        assert(scan_state(*t, d0, *depth, frags@, xmin as int, ymin as int)) by {
            assert forall|px: int, py: int|
                0 <= px < w && 0 <= py < h && scanned_before(px, py, xmin as int, ymin as int) implies !passes(*t, d0, px, py) by {
                if passes(*t, d0, px, py) {
                    assert(covered(*t, px, py));
                }
            }
        }
    }
    let mut y = ymin;
    while y <= ymax
        invariant
            t.wf(),
            d0.width == w,
            d0.height == h,
            w <= MAX_COORD,
            h <= MAX_COORD,
            xmin <= xmax < w,
            ymin <= y <= ymax + 1,
            ymax < h,
            scan_state(*t, d0, *depth, frags@, xmin as int, y as int),
            forall|px: int, py: int|
                0 <= px < w && 0 <= py < h && #[trigger] covered(*t, px, py) ==> xmin <= px <= xmax && ymin
                    <= py <= ymax,
        decreases ymax + 1 - y,
    {
        let mut x = xmin;
        while x <= xmax
            invariant
                t.wf(),
                d0.width == w,
                d0.height == h,
                w <= MAX_COORD,
                h <= MAX_COORD,
                xmin <= x <= xmax + 1,
                xmax < w,
                ymin <= y <= ymax,
                ymax < h,
                scan_state(*t, d0, *depth, frags@, x as int, y as int),
            decreases xmax + 1 - x,
        {
            scan_pixel(t, depth, &mut frags, x, y, Ghost(d0));
            x = x + 1;
        }
        proof {
            lemma_next_row(*t, d0, *depth, frags@, xmin as int, xmax as int, y as int);
        }
        y = y + 1;
    }
    proof {
        assert forall|px: int, py: int|
            0 <= px < w && 0 <= py < h && passes(*t, d0, px, py) implies scanned_before(px, py, xmin as int, y as int) by {
            assert(covered(*t, px, py));
        }
        if frags@.len() > 0 {
            assert(fragment_of(*t, d0, frags@[0]));
        }
    }
    frags
}

/// Rasterizes `t` in one flat colour: the depth buffer changes as under
/// `rasterize_triangle`, and exactly the pixels that passed take `color`.
pub fn draw_triangle(t: &ScreenTriangle, color: RGB, depth: &mut DepthBuffer, image: &mut Image)
    requires
        t.wf(),
        old(depth).wf(),
        old(image).wf(),
        old(depth).width <= MAX_COORD,
        old(depth).height <= MAX_COORD,
        old(image).width == old(depth).width,
        old(image).height == old(depth).height,
    ensures
        final(depth).wf(),
        final(image).wf(),
        final(depth).width == old(depth).width,
        final(depth).height == old(depth).height,
        final(image).width == old(image).width,
        final(image).height == old(image).height,
        forall|x: int, y: int|
            0 <= x < old(depth).width && 0 <= y < old(depth).height ==> #[trigger] final(depth).at(x, y) as int
                == depth_after(*t, *old(depth), x, y),
        forall|x: int, y: int|
            0 <= x < old(depth).width && 0 <= y < old(depth).height ==> #[trigger] final(image).pixel(x, y)
                == color_after(*t, *old(depth), *old(image), color, x, y),
{
    let ghost d0 = *depth;
    let ghost i0 = *image;
    let frags = rasterize_triangle(t, depth);
    let mut k: usize = 0;
    while k < frags.len()
        invariant
            k <= frags@.len(),
            image.wf(),
            image.width == i0.width,
            image.height == i0.height,
            i0.width == d0.width,
            i0.height == d0.height,
            forall|j: int| 0 <= j < frags@.len() ==> fragment_of(*t, d0, #[trigger] frags@[j]),
            forall|x: int, y: int|
                0 <= x < d0.width && 0 <= y < d0.height ==> #[trigger] image.pixel(x, y) == if exists|j: int|
                    0 <= j < k && frags@[j].x == x && frags@[j].y == y {
                    color
                } else {
                    i0.pixel(x, y)
                },
        decreases frags@.len() - k,
    {
        let f = frags[k];
        assert(fragment_of(*t, d0, frags@[k as int]));
        image.set(f.x, f.y, color);
        proof {
            assert forall|x: int, y: int| 0 <= x < d0.width && 0 <= y < d0.height implies #[trigger] image.pixel(x, y)
                == if exists|j: int| 0 <= j < k + 1 && frags@[j].x == x && frags@[j].y == y {
                color
            } else {
                i0.pixel(x, y)
            } by {
                if x == f.x && y == f.y {
                    assert(frags@[k as int].x == x && frags@[k as int].y == y);
                } else if exists|j: int| 0 <= j < k + 1 && frags@[j].x == x && frags@[j].y == y {
                    let j = choose|j: int| 0 <= j < k + 1 && frags@[j].x == x && frags@[j].y == y;
                    assert(j < k);
                }
            }
        }
        k = k + 1;
    }
    proof {
        assert forall|x: int, y: int| 0 <= x < d0.width && 0 <= y < d0.height implies #[trigger] image.pixel(x, y)
            == if passes(*t, d0, x, y) { color } else { i0.pixel(x, y) } by {
            if exists|j: int| 0 <= j < frags@.len() && frags@[j].x == x && frags@[j].y == y {
                let j = choose|j: int| 0 <= j < frags@.len() && frags@[j].x == x && frags@[j].y == y;
                assert(fragment_of(*t, d0, frags@[j]));
            }
        }
    }
}

/// Drawing a triangle a second time over the buffers that its first drawing
/// left changes nothing: no pixel passes the strict depth test again, so
/// every depth and every colour stays as it is, whatever the colour.
pub proof fn lemma_redraw_is_noop(t: ScreenTriangle, d0: DepthBuffer, d1: DepthBuffer, img: Image, color: RGB)
    requires
        d1.width == d0.width,
        d1.height == d0.height,
        forall|x: int, y: int|
            0 <= x < d0.width && 0 <= y < d0.height ==> #[trigger] d1.at(x, y) as int == depth_after(t, d0, x, y),
    ensures
        forall|x: int, y: int|
            0 <= x < d1.width && 0 <= y < d1.height ==> #[trigger] depth_after(t, d1, x, y) == d1.at(x, y)
                && color_after(t, d1, img, color, x, y) == img.pixel(x, y),
{
    assert forall|x: int, y: int| 0 <= x < d1.width && 0 <= y < d1.height implies #[trigger] depth_after(t, d1, x, y)
        == d1.at(x, y) && color_after(t, d1, img, color, x, y) == img.pixel(x, y) by {
        assert(d1.at(x, y) as int == depth_after(t, d0, x, y));
        assert(!passes(t, d1, x, y));
    }
}

/// A triangle whose vertices are collinear covers no pixel, so drawing it
/// changes neither buffer.
pub proof fn lemma_degenerate_draws_nothing(t: ScreenTriangle, d: DepthBuffer, img: Image, color: RGB)
    requires
        t.area2() == 0,
    ensures
        forall|x: int, y: int|
            #[trigger] depth_after(t, d, x, y) == d.at(x, y) && color_after(t, d, img, color, x, y) == img.pixel(x, y),
{
}

/// Perspective-correct interpolation at a vertex's own position gives back
/// that vertex's attribute exactly, for any three attributes.
pub proof fn lemma_vertex_attribute_exact(t: ScreenTriangle, v0: int, v1: int, v2: int)
    requires
        t.wf(),
        t.area2() != 0,
    ensures
        interp(persp_weights(t, weights_at(t, t.a.pos.x as int, t.a.pos.y as int)), v0, v1, v2) == v0,
        interp(persp_weights(t, weights_at(t, t.b.pos.x as int, t.b.pos.y as int)), v0, v1, v2) == v1,
        interp(persp_weights(t, weights_at(t, t.c.pos.x as int, t.c.pos.y as int)), v0, v1, v2) == v2,
{
    let (a, b, c) = (t.a.pos, t.b.pos, t.c.pos);
    assert(pixel_point(a.x as int, a.y as int) == a);
    assert(pixel_point(b.x as int, b.y as int) == b);
    assert(pixel_point(c.x as int, c.y as int) == c);
    lemma_vertex_weights(a, b, c);
    lemma_bary_reconstructs(a, b, c, a);
    let den = bary_spec(a, b, c, a).den as int;
    lemma_w_product(t.b.w, t.c.w);
    lemma_w_product(t.a.w, t.c.w);
    lemma_w_product(t.a.w, t.b.w);
    lemma_exact_at_vertex(den, t.b.w * t.c.w, v0, v1, v2);
    lemma_exact_at_vertex(den, t.a.w * t.c.w, v0, v1, v2);
    lemma_exact_at_vertex(den, t.a.w * t.b.w, v0, v1, v2);
    assert(0 * (t.a.w * t.c.w) == 0 && 0 * (t.a.w * t.b.w) == 0 && 0 * (t.b.w * t.c.w) == 0);
}

proof fn lemma_exact_at_vertex(den: int, big: int, v0: int, v1: int, v2: int)
    requires
        den > 0,
        big >= 1,
    ensures
        interp((den * big, 0, 0), v0, v1, v2) == v0,
        interp((0, den * big, 0), v0, v1, v2) == v1,
        interp((0, 0, den * big), v0, v1, v2) == v2,
{
    let p = den * big;
    assert(p > 0) by (nonlinear_arith)
        requires den > 0, big >= 1, p == den * big;
    lemma_div_multiples_vanish(v0, p);
    lemma_div_multiples_vanish(v1, p);
    lemma_div_multiples_vanish(v2, p);
    assert(p * v0 + 0 * v1 + 0 * v2 == p * v0);
    assert(0 * v0 + p * v1 + 0 * v2 == p * v1);
    assert(0 * v0 + 0 * v1 + p * v2 == p * v2);
}

} // verus!
