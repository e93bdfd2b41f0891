use vstd::prelude::*;

verus! {

/// One pixel of a frame: red, green and blue bytes.
#[derive(Clone, Copy, Debug, PartialEq, Eq, Structural)]
pub struct RGB {
    pub r: u8,
    pub g: u8,
    pub b: u8,
}

impl RGB {
    pub fn new(r: u8, g: u8, b: u8) -> (c: RGB)
        ensures
            c == (RGB { r, g, b }),
    {
        RGB { r, g, b }
    }

    pub fn red() -> (c: RGB)
        ensures
            c == (RGB { r: 255, g: 0, b: 0 }),
    {
        RGB { r: 255, g: 0, b: 0 }
    }

    pub fn green() -> (c: RGB)
        ensures
            c == (RGB { r: 0, g: 255, b: 0 }),
    {
        RGB { r: 0, g: 255, b: 0 }
    }

    pub fn blue() -> (c: RGB)
        ensures
            c == (RGB { r: 0, g: 0, b: 255 }),
    {
        RGB { r: 0, g: 0, b: 255 }
    }

    pub fn black() -> (c: RGB)
        ensures
            c == (RGB { r: 0, g: 0, b: 0 }),
    {
        RGB { r: 0, g: 0, b: 0 }
    }

    pub fn white() -> (c: RGB)
        ensures
            c == (RGB { r: 255, g: 255, b: 255 }),
    {
        RGB { r: 255, g: 255, b: 255 }
    }
}

/// The cell of a row-major buffer `width` wide that holds pixel `(x, y)`
/// when rows are stored in order `row`.
pub open spec fn cell(width: int, x: int, row: int) -> int {
    row * width + x
}

/// Distinct pixels of a `width x height` grid occupy distinct cells, all in
/// range.
pub proof fn lemma_cell_injective(width: int, height: int, x1: int, r1: int, x2: int, r2: int)
    requires
        0 <= x1 < width,
        0 <= x2 < width,
        0 <= r1 < height,
        0 <= r2 < height,
    ensures
        0 <= cell(width, x1, r1) < width * height,
        0 <= cell(width, x2, r2) < width * height,
        cell(width, x1, r1) == cell(width, x2, r2) ==> x1 == x2 && r1 == r2,
{
    assert(0 <= r1 * width + x1 < width * height) by (nonlinear_arith)
        requires
            0 <= x1 < width,
            0 <= r1 < height,
    ;
    assert(0 <= r2 * width + x2 < width * height) by (nonlinear_arith)
        requires
            0 <= x2 < width,
            0 <= r2 < height,
    ;
    if r1 < r2 {
        assert(r1 * width + x1 < r2 * width + x2) by (nonlinear_arith)
            requires
                0 <= x1 < width,
                0 <= x2,
                r1 < r2,
        ;
    } else if r2 < r1 {
        assert(r2 * width + x2 < r1 * width + x1) by (nonlinear_arith)
            requires
                0 <= x2 < width,
                0 <= x1,
                r2 < r1,
        ;
    }
}

/// A colour frame with its origin at the bottom-left corner: row 0 is the
/// bottom row.
#[derive(Debug)]
pub struct Image {
    pub width: usize,
    pub height: usize,
    pub data: Vec<RGB>,
}

impl Image {
    pub open spec fn wf(&self) -> bool {
        self.data@.len() == self.width * self.height
    }

    /// The colour at column `x`, row `y` (counted from the bottom).
    pub open spec fn pixel(&self, x: int, y: int) -> RGB {
        self.data@[cell(self.width as int, x, self.height - 1 - y)]
    }

    /// A black frame.
    pub fn new(width: usize, height: usize) -> (img: Image)
        requires
            width * height <= usize::MAX,
        ensures
            img.wf(),
            img.width == width,
            img.height == height,
            forall|x: int, y: int|
                0 <= x < width && 0 <= y < height ==> #[trigger] img.pixel(x, y) == (RGB { r: 0, g: 0, b: 0 }),
    {
        let n = width * height;
        let mut data: Vec<RGB> = Vec::with_capacity(n);
        let mut i: usize = 0;
        while i < n
            invariant
                i <= n,
                data@.len() == i,
                forall|j: int| 0 <= j < i ==> data@[j] == (RGB { r: 0, g: 0, b: 0 }),
            decreases n - i,
        {
            data.push(RGB::black());
            i = i + 1;
        }
        let img = Image { width, height, data };
        assert forall|x: int, y: int| 0 <= x < width && 0 <= y < height implies #[trigger] img.pixel(x, y)
            == (RGB { r: 0, g: 0, b: 0 }) by {
            lemma_cell_injective(width as int, height as int, x, height - 1 - y, x, height - 1 - y);
        }
        img
    }

    /// Paints pixel `(x, y)`; every other pixel keeps its colour.
    pub fn set(&mut self, x: usize, y: usize, c: RGB)
        requires
            old(self).wf(),
            x < old(self).width,
            y < old(self).height,
        ensures
            final(self).wf(),
            final(self).width == old(self).width,
            final(self).height == old(self).height,
            forall|i: int, j: int|
                0 <= i < old(self).width && 0 <= j < old(self).height ==> #[trigger] final(self).pixel(i, j)
                    == if i == x && j == y { c } else { old(self).pixel(i, j) },
    {
        proof {
            lemma_cell_injective(self.width as int, self.height as int, x as int, self.height - 1 - y, x as int, self.height - 1 - y);
        }
        let _n = self.data.len();
        let k = ((self.height - 1) - y) * self.width + x;
        self.data.set(k, c);
        proof {
            assert forall|i: int, j: int|
                0 <= i < self.width && 0 <= j < self.height implies #[trigger] self.pixel(i, j)
                    == if i == x && j == y { c } else { old(self).pixel(i, j) } by {
                lemma_cell_injective(self.width as int, self.height as int, x as int, self.height - 1 - y, i, self.height - 1 - j);
                assert(k == cell(self.width as int, x as int, self.height - 1 - y));
                assert(self.data@ == old(self).data@.update(k as int, c));
                if i == x && j == y {
                    assert(self.pixel(i, j) == c);
                } else {
                    assert(cell(self.width as int, i, self.height - 1 - j) != k);
                    assert(self.pixel(i, j) == old(self).pixel(i, j));
                }
            }
        }
    }

    /// The colour of pixel `(x, y)`.
    pub fn get(&self, x: usize, y: usize) -> (c: RGB)
        requires
            self.wf(),
            x < self.width,
            y < self.height,
        ensures
            c == self.pixel(x as int, y as int),
    {
        proof {
            lemma_cell_injective(self.width as int, self.height as int, x as int, self.height - 1 - y, x as int, self.height - 1 - y);
        }
        let _n = self.data.len();
        self.data[((self.height - 1) - y) * self.width + x]
    }
}

/// The decimal digits of `n`, as ASCII.
pub open spec fn decimal(n: nat) -> Seq<u8>
    decreases n,
{
    if n < 10 {
        seq![(48 + n) as u8]
    } else {
        decimal(n / 10) + seq![(48 + n % 10) as u8]
    }
}

/// The text of one pixel in a plain PPM body: `"r g b "`.
pub open spec fn pixel_text(c: RGB) -> Seq<u8> {
    decimal(c.r as nat) + seq![32u8] + decimal(c.g as nat) + seq![32u8] + decimal(c.b as nat) + seq![32u8]
}

/// The text of a run of pixels, in order.
pub open spec fn pixels_text(s: Seq<RGB>) -> Seq<u8>
    decreases s.len(),
{
    if s.len() == 0 {
        Seq::empty()
    } else {
        pixels_text(s.drop_last()) + pixel_text(s.last())
    }
}

/// The magic number that opens a plain-text PPM file.
pub const PPM_MAGIC: [u8; 2] = [80, 51];

/// A plain-text PPM file of the image: the magic number and a newline,
/// `"<w> <h>\n255\n"`, then every pixel from the top row down.
pub open spec fn ppm_text(img: Image) -> Seq<u8> {
    PPM_MAGIC@ + seq![10u8] + decimal(img.width as nat) + seq![32u8] + decimal(img.height as nat) + seq![
        10u8,
        50u8,
        53u8,
        53u8,
        10u8,
    ] + pixels_text(img.data@)
}

/// Appends the decimal digits of `n`.
fn push_decimal(out: &mut Vec<u8>, n: u64)
    ensures
        final(out)@ == old(out)@ + decimal(n as nat),
    decreases n,
{
    if n >= 10 {
        push_decimal(out, n / 10);
    }
    out.push((48 + n % 10) as u8);
    proof {
        if n < 10 {
            assert(n % 10 == n);
        }
        assert(out@ =~= old(out)@ + decimal(n as nat));
    }
}

impl Image {
    /// The image as a plain PPM file.
    pub fn to_ppm(&self) -> (out: Vec<u8>)
        ensures
            out@ == ppm_text(*self),
    {
        let mut out: Vec<u8> = Vec::new();
        out.push(PPM_MAGIC[0]);
        out.push(PPM_MAGIC[1]);
        out.push(10u8);
        push_decimal(&mut out, self.width as u64);
        out.push(32u8);
        push_decimal(&mut out, self.height as u64);
        out.push(10u8);
        out.push(50u8);
        out.push(53u8);
        out.push(53u8);
        out.push(10u8);
        let ghost header = out@;
        assert(header =~= PPM_MAGIC@ + seq![10u8] + decimal(self.width as nat) + seq![32u8] + decimal(
            self.height as nat,
        ) + seq![10u8, 50u8, 53u8, 53u8, 10u8]);
        let mut i: usize = 0;
        while i < self.data.len()
            invariant
                i <= self.data@.len(),
                out@ == header + pixels_text(self.data@.subrange(0, i as int)),
            decreases self.data@.len() - i,
        {
            let c = self.data[i];
            push_decimal(&mut out, c.r as u64);
            out.push(32u8);
            push_decimal(&mut out, c.g as u64);
            out.push(32u8);
            push_decimal(&mut out, c.b as u64);
            out.push(32u8);
            proof {
                let next = self.data@.subrange(0, i + 1);
                assert(next.drop_last() =~= self.data@.subrange(0, i as int));
                assert(next.last() == c);
                assert(out@ =~= header + pixels_text(next));
            }
            i = i + 1;
        }
        assert(self.data@.subrange(0, self.data@.len() as int) =~= self.data@);
        out
    }
}

} // verus!
