use vstd::prelude::*;
use vstd::arithmetic::div_mod::lemma_fundamental_div_mod_converse_div;
use crate::frame::{Image, RGB};

verus! {

pub open spec fn abs(v: int) -> int {
    if v < 0 { -v } else { v }
}

/// The segment with its axes swapped when it is steeper than 45 degrees and
/// its ends ordered left to right: `(steep, a0, b0, a1, b1)`.
pub open spec fn normalized(x0: int, y0: int, x1: int, y1: int) -> (bool, int, int, int, int) {
    let steep = abs(x0 - x1) < abs(y0 - y1);
    let (a0, b0, a1, b1) = if steep { (y0, x0, y1, x1) } else { (x0, y0, x1, y1) };
    if a0 > a1 { (steep, a1, b1, a0, b0) } else { (steep, a0, b0, a1, b1) }
}

/// How far the minor coordinate has moved after `k` steps along the major
/// axis of a run `dx` long that rises `ady`: the midpoint rounding of
/// `k * ady / dx`.
pub open spec fn rise(k: int, dx: int, ady: int) -> int {
    (2 * k * ady + dx - 1) / (2 * dx)
}

/// Pixel `(i, j)` is drawn by the segment from `(x0, y0)` to `(x1, y1)`:
/// one pixel for each step along the major axis, from the first end up to
/// but not including the last.
pub open spec fn on_line(x0: int, y0: int, x1: int, y1: int, i: int, j: int) -> bool {
    let (steep, a0, b0, a1, b1) = normalized(x0, y0, x1, y1);
    let (u, v) = if steep { (j, i) } else { (i, j) };
    let r = rise(u - a0, a1 - a0, abs(b1 - b0));
    a0 <= u < a1 && v == (if b1 > b0 { b0 + r } else { b0 - r })
}

proof fn lemma_rise_step(k: int, dx: int, ady: int, m: int, e: int)
    requires
        dx > 0,
        0 <= ady <= dx,
        0 <= k,
        e == 2 * k * ady - 2 * dx * m,
        -dx < e <= dx,
    ensures
        m == rise(k, dx, ady),
        0 <= m,
        k < dx ==> m <= ady,
{
    let r = e + dx - 1;
    assert(2 * k * ady + dx - 1 == m * (2 * dx) + r) by (nonlinear_arith)
        requires e == 2 * k * ady - 2 * dx * m, r == e + dx - 1;
    lemma_fundamental_div_mod_converse_div(2 * k * ady + dx - 1, 2 * dx, m, r);
    assert(0 <= 2 * k * ady) by (nonlinear_arith)
        requires 0 <= k, 0 <= ady;
    assert(0 <= m) by (nonlinear_arith)
        requires 2 * dx * m + e == 2 * k * ady, 0 <= 2 * k * ady, e <= dx, dx > 0;
    if k < dx {
        assert(2 * k * ady <= 2 * (dx - 1) * ady) by (nonlinear_arith)
            requires 0 <= k < dx, 0 <= ady;
        assert(2 * (dx - 1) * ady == 2 * dx * ady - 2 * ady) by (nonlinear_arith);
        if m > ady {
            assert(2 * dx * m >= 2 * dx * (ady + 1)) by (nonlinear_arith)
                requires m >= ady + 1, dx > 0;
            assert(2 * dx * (ady + 1) == 2 * dx * ady + 2 * dx) by (nonlinear_arith);
        }
    }
}

/// Draws the segment from `(x0, y0)` to `(x1, y1)` by Bresenham's method:
/// exactly the pixels `on_line` take `color`.
pub fn line(x0: i32, y0: i32, x1: i32, y1: i32, image: &mut Image, color: RGB)
    requires
        old(image).wf(),
        0 <= x0 < old(image).width,
        0 <= x1 < old(image).width,
        0 <= y0 < old(image).height,
        0 <= y1 < old(image).height,
    ensures
        final(image).wf(),
        final(image).width == old(image).width,
        final(image).height == old(image).height,
        forall|i: int, j: int|
            0 <= i < old(image).width && 0 <= j < old(image).height ==> #[trigger] final(image).pixel(i, j)
                == if on_line(x0 as int, y0 as int, x1 as int, y1 as int, i, j) { color } else { old(image).pixel(i, j) },
{
    let ghost img0 = *image;
    let (x0, y0, x1, y1) = (x0 as i64, y0 as i64, x1 as i64, y1 as i64);
    let adx = if x0 > x1 { x0 - x1 } else { x1 - x0 };
    let ady = if y0 > y1 { y0 - y1 } else { y1 - y0 };
    let steep = adx < ady;
    let (a0, b0, a1, b1) = if steep { (y0, x0, y1, x1) } else { (x0, y0, x1, y1) };
    let (a0, b0, a1, b1) = if a0 > a1 { (a1, b1, a0, b0) } else { (a0, b0, a1, b1) };
    let ghost nrm = normalized(x0 as int, y0 as int, x1 as int, y1 as int);
    assert(nrm == (steep, a0 as int, b0 as int, a1 as int, b1 as int));
    let dx = a1 - a0;
    let dy = b1 - b0;
    let dya = if dy < 0 { -dy } else { dy };
    let derror = dya * 2;
    let mut error: i64 = 0;
    let mut b = b0;
    let inc: i64 = if b1 > b0 { 1 } else { -1 };
    let ghost mut m: int = 0;
    let (wbound, hbound) = (image.width, image.height);
    let mut a = a0;
    assert(2 * (a - a0) * dya - 2 * dx * m == 0) by (nonlinear_arith)
        requires a == a0, m == 0;
    while a < a1
        invariant
            image.wf(),
            image.width == img0.width,
            image.height == img0.height,
            wbound == img0.width,
            hbound == img0.height,
            nrm == (steep, a0 as int, b0 as int, a1 as int, b1 as int),
            nrm == normalized(x0 as int, y0 as int, x1 as int, y1 as int),
            0 <= a0 <= a <= a1,
            dx == a1 - a0,
            dya == abs(b1 - b0),
            dya <= dx,
            dx <= 0xffff_ffff,
            derror == 2 * dya,
            inc == (if b1 > b0 { 1int } else { -1int }),
            0 <= b0 <= 0x7fff_ffff,
            0 <= b1 <= 0x7fff_ffff,
            steep ==> a1 < hbound && b0 < wbound && b1 < wbound,
            !steep ==> a1 < wbound && b0 < hbound && b1 < hbound,
            b == b0 + inc * m,
            error == 2 * (a - a0) * dya - 2 * dx * m,
            dx > 0 ==> -dx < error,
            error <= dx,
            0 <= m,
            forall|i: int, j: int|
                0 <= i < img0.width && 0 <= j < img0.height ==> #[trigger] image.pixel(i, j) == if on_line(
                    x0 as int,
                    y0 as int,
                    x1 as int,
                    y1 as int,
                    i,
                    j,
                ) && (if steep { j } else { i }) < a {
                    color
                } else {
                    img0.pixel(i, j)
                },
        decreases a1 - a,
    {
        proof {
            lemma_rise_step(a - a0, dx as int, dya as int, m, error as int);
            assert(inc * m == if b1 > b0 { m } else { -m }) by (nonlinear_arith)
                requires inc == (if b1 > b0 { 1int } else { -1int });
            assert(b1 > b0 ==> b1 - b0 == dya);
            assert(b1 <= b0 ==> b0 - b1 == dya);
        }
        let (px, py) = if steep { (b as usize, a as usize) } else { (a as usize, b as usize) };
        image.set(px, py, color);
        proof {
            assert forall|i: int, j: int| 0 <= i < img0.width && 0 <= j < img0.height implies #[trigger] image.pixel(i, j)
                == if on_line(x0 as int, y0 as int, x1 as int, y1 as int, i, j) && (if steep { j } else { i }) < a + 1 {
                color
            } else {
                img0.pixel(i, j)
            } by {
                if (if steep { j } else { i }) == a {
                    assert(rise(a - a0, dx as int, dya as int) == m);
                    assert(abs(b1 - b0) == dya);
                    assert((if b1 > b0 { b0 + m } else { b0 - m }) == b);
                    if steep {
                        assert(px == b && py == a);
                        assert(j == a);
                        assert(on_line(x0 as int, y0 as int, x1 as int, y1 as int, i, j) <==> i == b);
                    } else {
                        assert(px == a && py == b);
                        assert(on_line(x0 as int, y0 as int, x1 as int, y1 as int, i, j) <==> j == b);
                    }
                    assert(on_line(x0 as int, y0 as int, x1 as int, y1 as int, i, j) <==> (i == px && j == py));
                }
            }
        }
        let ghost e0 = error;
        let ghost m0 = m;
        error = error + derror;
        if error > dx {
            b = b + inc;
            error = error - dx * 2;
            proof {
                m = m + 1;
            }
        }
        proof {
            assert(error == 2 * (a + 1 - a0) * dya - 2 * dx * m) by (nonlinear_arith)
                requires
                    e0 == 2 * (a - a0) * dya - 2 * dx * m0,
                    (m == m0 && error == e0 + 2 * dya) || (m == m0 + 1 && error == e0 + 2 * dya - 2 * dx),
            ;
        }
        a = a + 1;
    }
    proof {
        assert forall|i: int, j: int| 0 <= i < img0.width && 0 <= j < img0.height implies #[trigger] image.pixel(i, j)
            == if on_line(x0 as int, y0 as int, x1 as int, y1 as int, i, j) { color } else { img0.pixel(i, j) } by {
            if on_line(x0 as int, y0 as int, x1 as int, y1 as int, i, j) {
                assert((if steep { j } else { i }) < a1);
            }
        }
    }
}

} // verus!
