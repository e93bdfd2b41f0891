use vstd::prelude::*;
use crate::frame::RGB;
use crate::raster::DepthBuffer;

verus! {

/// Fixed-point unit of light intensity: `LIGHT_ONE` is full light.
pub const LIGHT_ONE: u32 = 256;

/// A shadowed fragment keeps `SHADOW_NUM / SHADOW_DEN` of its diffuse and
/// specular light.
pub const SHADOW_NUM: u32 = 3;

pub const SHADOW_DEN: u32 = 10;

/// The light that reaches a fragment, after shadow attenuation.
pub open spec fn attenuated(light: int, shadowed: bool) -> int {
    if shadowed { light * SHADOW_NUM / SHADOW_DEN as int } else { light }
}

/// One colour channel: the ambient term plus the texture channel scaled by
/// the light, clamped to 255.
pub open spec fn channel(ambient: int, tex: int, light: int) -> int {
    let v = ambient + tex * light / LIGHT_ONE as int;
    if v > 255 { 255 } else { v }
}

fn shade_channel(ambient: u8, tex: u8, light: u32) -> (r: u8)
    ensures
        r as int == channel(ambient as int, tex as int, light as int),
{
    proof {
        assert(tex * light <= 255 * 0xffff_ffff) by (nonlinear_arith)
            requires tex <= 255, light <= 0xffff_ffff;
    }
    let v = ambient as u64 + (tex as u64 * light as u64) / LIGHT_ONE as u64;
    if v > 255 {
        255
    } else {
        v as u8
    }
}

/// The colour of a fragment: per channel
/// `min(255, ambient + texel * light / LIGHT_ONE)`, where `light` is the
/// summed diffuse and specular intensity, attenuated when the fragment lies
/// in shadow.
pub fn shade(ambient: u8, texel: RGB, light: u32, shadowed: bool) -> (c: RGB)
    ensures
        c.r as int == channel(ambient as int, texel.r as int, attenuated(light as int, shadowed)),
        c.g as int == channel(ambient as int, texel.g as int, attenuated(light as int, shadowed)),
        c.b as int == channel(ambient as int, texel.b as int, attenuated(light as int, shadowed)),
{
    proof {
        assert(light * 3 <= 3 * 0xffff_ffff);
        assert(light * 3 / 10 <= light * 3);
    }
    let l = if shadowed {
        (light as u64 * SHADOW_NUM as u64 / SHADOW_DEN as u64) as u32
    } else {
        light
    };
    RGB {
        r: shade_channel(ambient, texel.r, l),
        g: shade_channel(ambient, texel.g, l),
        b: shade_channel(ambient, texel.b, l),
    }
}

/// Whether a fragment that falls on pixel `(x, y)` of the shadow map with
/// light-space depth `depth` is hidden from the light: it lies more than
/// `bias` behind the nearest occluder stored there. Outside the map nothing
/// is known and the fragment is lit.
pub open spec fn in_shadow(map: DepthBuffer, x: int, y: int, depth: int, bias: int) -> bool {
    0 <= x < map.width && 0 <= y < map.height && depth + bias < map.at(x, y)
}

pub fn is_shadowed(map: &DepthBuffer, x: i64, y: i64, depth: i64, bias: i64) -> (r: bool)
    requires
        map.wf(),
    ensures
        r == in_shadow(*map, x as int, y as int, depth as int, bias as int),
{
    if x < 0 || y < 0 || x as u64 >= map.width as u64 || y as u64 >= map.height as u64 {
        return false;
    }
    let stored = map.get(x as usize, y as usize);
    (depth as i128 + bias as i128) < stored as i128
}

/// Fixed-point unit of texture coordinates: `UV_ONE` is 1.0.
pub const UV_ONE: i64 = 0x1_0000;

pub open spec fn clamp(v: int, lo: int, hi: int) -> int {
    if v < lo { lo } else if v > hi { hi } else { v }
}

/// A decoded texture: `depth` bytes per texel (at least red, green and
/// blue), rows stored top first.
#[derive(Debug)]
pub struct Texture {
    pub width: usize,
    pub height: usize,
    pub depth: usize,
    pub data: Vec<u8>,
}

impl Texture {
    pub open spec fn wf(&self) -> bool {
        &&& self.width >= 1
        &&& self.height >= 1
        &&& self.depth >= 3
        &&& self.data@.len() == self.width * self.height * self.depth
    }

    /// The column that texture coordinate `u` (in units of `UV_ONE`) falls in.
    pub open spec fn column(&self, u: int) -> int {
        clamp(u * self.width / UV_ONE as int, 0, self.width - 1)
    }

    /// The row that texture coordinate `v` falls in; `v` grows upwards while
    /// rows are stored top first.
    pub open spec fn row(&self, v: int) -> int {
        clamp((UV_ONE - v) * self.height / UV_ONE as int, 0, self.height - 1)
    }

    pub open spec fn texel_at(&self, col: int, row: int) -> RGB {
        let i = (row * self.width + col) * self.depth;
        RGB { r: self.data@[i], g: self.data@[i + 1], b: self.data@[i + 2] }
    }

    /// Accepts decoded texture data only when its size matches its shape.
    pub fn new(width: usize, height: usize, depth: usize, data: Vec<u8>) -> (r: Option<Texture>)
        ensures
            r is Some <==> (width >= 1 && height >= 1 && depth >= 3 && data@.len() == width * height
                * depth),
            r matches Some(tex) ==> tex.wf() && tex.width == width && tex.height == height && tex.depth
                == depth && tex.data@ == data@,
    {
        if width == 0 || height == 0 || depth < 3 {
            return None;
        }
        let n = data.len();
        let wh = width.checked_mul(height);
        match wh {
            None => {
                proof {
                    assert(width * height * depth >= width * height) by (nonlinear_arith)
                        requires depth >= 3, width >= 1, height >= 1;
                }
                None
            },
            Some(wh) => match wh.checked_mul(depth) {
                None => None,
                Some(total) => {
                    if total != n {
                        None
                    } else {
                        Some(Texture { width, height, depth, data })
                    }
                },
            },
        }
    }

    /// The texel under texture coordinates `(u, v)`, in units of `UV_ONE`:
    /// column `u * width`, row `(1 - v) * height`, both rounded down and
    /// clamped into the texture.
    pub fn sample(&self, u: i32, v: i32) -> (c: RGB)
        requires
            self.wf(),
        ensures
            c == self.texel_at(self.column(u as int), self.row(v as int)),
    {
        let col = scale_clamped(u as i64, self.width);
        let row = scale_clamped(UV_ONE - v as i64, self.height);
        proof {
            let (w, h, d) = (self.width as int, self.height as int, self.depth as int);
            assert(row * w + col < w * h) by (nonlinear_arith)
                requires 0 <= row < h, 0 <= col < w;
            assert((row * w + col) * d + 2 < w * h * d) by (nonlinear_arith)
                requires row * w + col < w * h, d >= 3, 0 <= row * w + col;
            assert(w * h <= w * h * d) by (nonlinear_arith)
                requires d >= 3, w >= 1, h >= 1;
            assert(row * w <= row * w + col);
            assert(0 <= row * w) by (nonlinear_arith)
                requires 0 <= row, 0 <= w;
        }
        let _n = self.data.len();
        let i = (row * self.width + col) * self.depth;
        RGB { r: self.data[i], g: self.data[i + 1], b: self.data[i + 2] }
    }
}

/// `clamp(t * n / UV_ONE, 0, n - 1)`.
fn scale_clamped(t: i64, n: usize) -> (r: usize)
    requires
        n >= 1,
    ensures
        r as int == clamp(t * n / UV_ONE as int, 0, n - 1),
        r < n,
{
    if t <= 0 {
        proof {
            assert(t * n <= 0) by (nonlinear_arith)
                requires t <= 0, n >= 1;
            vstd::arithmetic::div_mod::lemma_div_is_ordered(t * n, 0, UV_ONE as int);
        }
        0
    } else {
        proof {
            assert(t * n <= 0x8000_0000_0000_0000 * 0x1_0000_0000_0000_0000) by (nonlinear_arith)
                requires 0 < t <= 0x8000_0000_0000_0000, 1 <= n <= 0x1_0000_0000_0000_0000;
        }
        let q = (t as u128 * n as u128) / UV_ONE as u128;
        if q >= n as u128 {
            n - 1
        } else {
            q as usize
        }
    }
}

} // verus!
