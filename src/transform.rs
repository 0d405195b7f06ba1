use vstd::prelude::*;
use crate::alpha::{alpha, alpha_of};
use crate::calibration::{Calibration, Settings};
use crate::classify::{classification, classify};
use crate::color::{Rgb, Rgba};
use crate::raster::{cell, cell_of, lemma_cell_in_grid, Raster, RgbaRaster};

verus! {

/// The output pixel for a source colour: the tint with the opacity of the
/// classified value, or `None` where no value was found.
pub open spec fn overlay_pixel(calib: Calibration, settings: Settings, c: Rgb) -> Option<Rgba> {
    match classification(calib.colors.entries@, calib.values.entries@, c) {
        Some(v) => Some(
            Rgba {
                r: settings.tint.r,
                g: settings.tint.g,
                b: settings.tint.b,
                a: alpha_of(v, settings.saturation) as u8,
            },
        ),
        None => None,
    }
}

/// A missing pixel is fully transparent.
pub open spec fn fill(p: Option<Rgba>) -> Rgba {
    match p {
        Some(q) => q,
        None => Rgba { r: 0, g: 0, b: 0, a: 0 },
    }
}

/// The output pixels for source pixels `pixels`, one for one.
pub open spec fn overlay_seq(pixels: Seq<Rgb>, calib: Calibration, settings: Settings) -> Seq<Rgba> {
    pixels.map_values(|c: Rgb| fill(overlay_pixel(calib, settings, c)))
}

/// The output pixel for the source colour `c`.
pub fn overlay_for(c: Rgb, calib: &Calibration, settings: &Settings) -> (r: Option<Rgba>)
    requires
        calib.values.wf(),
        settings.saturation > 0,
    ensures
        r == overlay_pixel(*calib, *settings, c),
{
    match classify(c, &calib.colors, &calib.values) {
        Some(v) => {
            proof {
                let t = calib.values.entries@;
                let k = choose|k: int| 0 <= k < t.len() && t[k].1 == v;
                assert(t[k].1.wf());
            }
            let a = alpha(v, settings.saturation);
            Some(Rgba { r: settings.tint.r, g: settings.tint.g, b: settings.tint.b, a })
        },
        None => None,
    }
}

/// Output pixels of row `y` of `img`, column by column.
pub fn transform_row(img: &Raster, y: u32, calib: &Calibration, settings: &Settings) -> (r: Vec<Option<Rgba>>)
    requires
        img.wf(),
        y < img.height,
        calib.values.wf(),
        settings.saturation > 0,
    ensures
        r@.len() == img.width,
        forall|x: int| 0 <= x < img.width ==> #[trigger] r@[x] == overlay_pixel(*calib, *settings, img.at(x, y as int)),
{
    let mut out: Vec<Option<Rgba>> = Vec::new();
    let mut x: u32 = 0;
    while x < img.width
        invariant
            img.wf(),
            y < img.height,
            calib.values.wf(),
            settings.saturation > 0,
            x <= img.width,
            out@.len() == x,
            forall|k: int| 0 <= k < x ==> #[trigger] out@[k] == overlay_pixel(*calib, *settings, img.at(k, y as int)),
        decreases img.width - x,
    {
        let p = overlay_for(img.get(x, y), calib, settings);
        out.push(p);
        x = x + 1;
    }
    out
}

/// A `width` by `height` grid from its rows, each missing pixel transparent.
pub fn assemble_rows(width: u32, height: u32, rows: &Vec<Vec<Option<Rgba>>>) -> (r: RgbaRaster)
    requires
        rows@.len() == height,
        forall|y: int| 0 <= y < height ==> (#[trigger] rows@[y])@.len() == width,
    ensures
        r.wf(),
        r.width == width,
        r.height == height,
        forall|x: int, y: int| 0 <= x < width && 0 <= y < height ==> #[trigger] r.at(x, y) == fill(rows@[y]@[x]),
{
    let mut pixels: Vec<Rgba> = Vec::new();
    let mut y: u32 = 0;
    while y < height
        invariant
            rows@.len() == height,
            forall|j: int| 0 <= j < height ==> (#[trigger] rows@[j])@.len() == width,
            y <= height,
            pixels@.len() == y as int * width as int,
            forall|i: int, j: int| 0 <= i < width && 0 <= j < y ==> #[trigger] pixels@[cell(width, i, j)] == fill(rows@[j]@[i]),
        decreases height - y,
    {
        let row = &rows[y as usize];
        let mut x: u32 = 0;
        while x < width
            invariant
                rows@.len() == height,
                forall|j: int| 0 <= j < height ==> (#[trigger] rows@[j])@.len() == width,
                y < height,
                x <= width,
                row@ == rows@[y as int]@,
                pixels@.len() == y as int * width as int + x,
                forall|i: int, j: int| 0 <= i < width && 0 <= j < y ==> #[trigger] pixels@[cell(width, i, j)] == fill(rows@[j]@[i]),
                forall|i: int| 0 <= i < x ==> #[trigger] pixels@[cell(width, i, y as int)] == fill(rows@[y as int]@[i]),
            decreases width - x,
        {
            let p = match row[x as usize] {
                Some(q) => q,
                None => Rgba { r: 0, g: 0, b: 0, a: 0 },
            };
            let ghost before = pixels@;
            pixels.push(p);
            proof {
                assert forall|i: int, j: int| 0 <= i < width && 0 <= j < y implies #[trigger] pixels@[cell(width, i, j)] == fill(rows@[j]@[i]) by {
                    lemma_cell_in_grid(width, y, i, j);
                    assert(pixels@[cell(width, i, j)] == before[cell(width, i, j)]);
                }
                assert forall|i: int| 0 <= i < x + 1 implies #[trigger] pixels@[cell(width, i, y as int)] == fill(rows@[y as int]@[i]) by {
                    if i < x {
                        assert(pixels@[cell(width, i, y as int)] == before[cell(width, i, y as int)]);
                    }
                }
            }
            x = x + 1;
        }
        proof {
            assert((y + 1) as int * width as int == y as int * width as int + width) by (nonlinear_arith);
        }
        y = y + 1;
    }
    proof {
        assert(width as int * height as int == height as int * width as int) by (nonlinear_arith);
    }
    RgbaRaster { width, height, pixels }
}

/// The overlay of `img`: every pixel takes the tint with the opacity of its
/// classified value, or stays transparent where no value was found.
pub fn transform(img: &Raster, calib: &Calibration, settings: &Settings) -> (r: RgbaRaster)
    requires
        img.wf(),
        calib.values.wf(),
        settings.saturation > 0,
    ensures
        r.wf(),
        r.width == img.width,
        r.height == img.height,
        forall|x: int, y: int| 0 <= x < img.width && 0 <= y < img.height ==>
            #[trigger] r.at(x, y) == fill(overlay_pixel(*calib, *settings, img.at(x, y))),
        r.pixels@ == overlay_seq(img.pixels@, *calib, *settings),
{
    let mut rows: Vec<Vec<Option<Rgba>>> = Vec::new();
    let mut y: u32 = 0;
    while y < img.height
        invariant
            img.wf(),
            calib.values.wf(),
            settings.saturation > 0,
            y <= img.height,
            rows@.len() == y,
            forall|j: int| 0 <= j < y ==> (#[trigger] rows@[j])@.len() == img.width,
            forall|i: int, j: int| 0 <= i < img.width && 0 <= j < y ==>
                #[trigger] rows@[j]@[i] == overlay_pixel(*calib, *settings, img.at(i, j)),
        decreases img.height - y,
    {
        let row = transform_row(img, y, calib, settings);
        rows.push(row);
        y = y + 1;
    }
    let r = assemble_rows(img.width, img.height, &rows);
    proof {
        let want = overlay_seq(img.pixels@, *calib, *settings);
        assert forall|i: int| 0 <= i < r.pixels@.len() implies r.pixels@[i] == want[i] by {
            let (x, y) = cell_of(img.width, img.height, i);
            assert(r.at(x, y) == fill(overlay_pixel(*calib, *settings, img.at(x, y))));
        }
        assert(r.pixels@ =~= want);
    }
    r
}

} // verus!
