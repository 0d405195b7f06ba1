use vstd::prelude::*;
use crate::color::{Rgb, Rgba};

verus! {

/// A grid of RGB pixels stored row by row.
#[derive(Clone, Debug)]
pub struct Raster {
    pub width: u32,
    pub height: u32,
    pub pixels: Vec<Rgb>,
}

/// A grid of RGBA pixels stored row by row.
#[derive(Clone, Debug)]
pub struct RgbaRaster {
    pub width: u32,
    pub height: u32,
    pub pixels: Vec<Rgba>,
}

/// Why a span of a row could not be averaged.
#[derive(Clone, Copy, Debug, PartialEq, Eq, Structural)]
pub enum SampleError {
    OutOfBounds,
    EmptySpan,
}

/// Position of pixel `(x, y)` in a row-major grid of the given width.
pub open spec fn cell(width: u32, x: int, y: int) -> int {
    y * width as int + x
}

impl Raster {
    pub open spec fn wf(&self) -> bool {
        self.pixels@.len() == self.width as int * self.height as int
    }

    /// The pixel in column `x` of row `y`.
    pub open spec fn at(&self, x: int, y: int) -> Rgb {
        self.pixels@[cell(self.width, x, y)]
    }

    /// A grid from its dimensions and its pixels, row by row; `None` when the
    /// number of pixels is not `width * height`.
    pub fn from_pixels(width: u32, height: u32, pixels: Vec<Rgb>) -> (r: Option<Raster>)
        ensures
            pixels@.len() == width as int * height as int <==> r.is_some(),
            r matches Some(g) ==> g.wf() && g.width == width && g.height == height
                && g.pixels@ == pixels@,
    {
        assert(width as u64 * height as u64 <= u64::MAX) by (nonlinear_arith)
            requires
                width <= u32::MAX,
                height <= u32::MAX,
        ;
        let n: u64 = width as u64 * height as u64;
        if pixels.len() as u64 == n {
            Some(Raster { width, height, pixels })
        } else {
            None
        }
    }

    /// The pixel in column `x` of row `y`.
    pub fn get(&self, x: u32, y: u32) -> (r: Rgb)
        requires
            self.wf(),
            x < self.width,
            y < self.height,
        ensures
            r == self.at(x as int, y as int),
    {
        let len = self.pixels.len();
        proof {
            lemma_cell_in_grid(self.width, self.height, x as int, y as int);
            assert(cell(self.width, x as int, y as int) < len);
        }
        self.pixels[y as usize * self.width as usize + x as usize]
    }
}

impl RgbaRaster {
    pub open spec fn wf(&self) -> bool {
        self.pixels@.len() == self.width as int * self.height as int
    }

    /// The pixel in column `x` of row `y`.
    pub open spec fn at(&self, x: int, y: int) -> Rgba {
        self.pixels@[cell(self.width, x, y)]
    }
}

/// A cell of a grid lies inside its storage.
pub proof fn lemma_cell_in_grid(width: u32, height: u32, x: int, y: int)
    requires
        0 <= x < width,
        0 <= y < height,
    ensures
        0 <= cell(width, x, y) < width as int * height as int,
        cell(width, x, y) < height as int * width as int,
        0 <= y * width as int <= cell(width, x, y),
{
    assert(width as int * height as int == height as int * width as int) by (nonlinear_arith);
    assert(0 <= y * width as int + x < width as int * height as int) by (nonlinear_arith)
        requires
            0 <= x < width,
            0 <= y < height,
    ;
    assert(0 <= y * width as int) by (nonlinear_arith)
        requires
            0 <= y,
    ;
}

/// Column and row of storage position `i` in a grid of the given size.
pub proof fn cell_of(width: u32, height: u32, i: int) -> (p: (int, int))
    requires
        0 <= i < width as int * height as int,
    ensures
        0 <= p.0 < width,
        0 <= p.1 < height,
        cell(width, p.0, p.1) == i,
{
    let w = width as int;
    let h = height as int;
    assert(w > 0) by (nonlinear_arith)
        requires
            0 <= i < w * h,
            h >= 0,
    ;
    vstd::arithmetic::div_mod::lemma_fundamental_div_mod(i, w);
    vstd::arithmetic::div_mod::lemma_mod_pos_bound(i, w);
    vstd::arithmetic::div_mod::lemma_div_pos_is_pos(i, w);
    let x = i % w;
    let y = i / w;
    assert(y < h) by (nonlinear_arith)
        requires
            i == w * y + x,
            0 <= x,
            i < w * h,
            w > 0,
    ;
    assert(y * w == w * y) by (nonlinear_arith);
    (x, y)
}

/// Channel `k` of a colour: red, green and blue for 0, 1 and 2.
pub open spec fn channel(c: Rgb, k: int) -> int {
    if k == 0 {
        c.r as int
    } else if k == 1 {
        c.g as int
    } else {
        c.b as int
    }
}

/// Sum of channel `k` over the `n` pixels of row `y` that start at column `x`.
pub open spec fn span_sum(img: Raster, y: int, x: int, n: int, k: int) -> int
    decreases n,
{
    if n <= 0 {
        0
    } else {
        span_sum(img, y, x, n - 1, k) + channel(img.at(x + n - 1, y), k)
    }
}

/// Mean of channel `k` over columns `x_start..=x_end` of row `y`, rounded down.
pub open spec fn span_mean(img: Raster, y: int, x_start: int, x_end: int, k: int) -> int {
    span_sum(img, y, x_start, x_end - x_start + 1, k) / (x_end - x_start + 1)
}

/// What averaging columns `x_start..=x_end` of row `y` yields.
pub open spec fn sample_result(img: Raster, y: u32, x_start: u32, x_end: u32) -> Result<Rgb, SampleError> {
    if x_end < x_start {
        Err(SampleError::EmptySpan)
    } else if y >= img.height || x_end >= img.width {
        Err(SampleError::OutOfBounds)
    } else {
        Ok(
            Rgb {
                r: span_mean(img, y as int, x_start as int, x_end as int, 0) as u8,
                g: span_mean(img, y as int, x_start as int, x_end as int, 1) as u8,
                b: span_mean(img, y as int, x_start as int, x_end as int, 2) as u8,
            },
        )
    }
}

proof fn lemma_mean_fits(total: int, n: int)
    requires
        0 <= total <= 255 * n,
        n > 0,
    ensures
        0 <= total / n <= 255,
{
    assert(0 <= total / n <= 255) by (nonlinear_arith)
        requires
            0 <= total <= 255 * n,
            n > 0,
    ;
}

/// Mean colour of columns `x_start..=x_end` of row `y`, each channel rounded
/// down. An empty span is refused first, then a span that leaves the grid.
pub fn sample_average(img: &Raster, y: u32, x_start: u32, x_end: u32) -> (r: Result<Rgb, SampleError>)
    requires
        img.wf(),
    ensures
        r == sample_result(*img, y, x_start, x_end),
{
    if x_end < x_start {
        return Err(SampleError::EmptySpan);
    }
    if y >= img.height || x_end >= img.width {
        return Err(SampleError::OutOfBounds);
    }
    let mut total_r: u64 = 0;
    let mut total_g: u64 = 0;
    let mut total_b: u64 = 0;
    let mut count: u64 = 0;
    let n: u64 = x_end as u64 - x_start as u64 + 1;
    while count < n
        invariant
            img.wf(),
            y < img.height,
            x_end < img.width,
            x_start <= x_end,
            n == x_end - x_start + 1,
            count <= n,
            total_r == span_sum(*img, y as int, x_start as int, count as int, 0),
            total_g == span_sum(*img, y as int, x_start as int, count as int, 1),
            total_b == span_sum(*img, y as int, x_start as int, count as int, 2),
            total_r <= 255 * count,
            total_g <= 255 * count,
            total_b <= 255 * count,
        decreases n - count,
    {
        let p = img.get((x_start as u64 + count) as u32, y);
        total_r = total_r + p.r as u64;
        total_g = total_g + p.g as u64;
        total_b = total_b + p.b as u64;
        count = count + 1;
    }
    proof {
        lemma_mean_fits(total_r as int, n as int);
        lemma_mean_fits(total_g as int, n as int);
        lemma_mean_fits(total_b as int, n as int);
    }
    Ok(Rgb { r: (total_r / n) as u8, g: (total_g / n) as u8, b: (total_b / n) as u8 })
}

} // verus!
