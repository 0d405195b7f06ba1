use alfamap::alpha::Ratio;
use alfamap::calibration::{Anchor, Calibration, ColorTable, Settings, ValueTable};
use alfamap::classify::{classify, lookup_value, nearest_index};
use alfamap::codec::{decode_image, encode_png, overlay_png, CodecError};
use alfamap::color::{Rgb, Rgba};
use alfamap::raster::{Raster, RgbaRaster};
use alfamap::transform::{assemble_rows, transform, transform_row};

fn rgb(r: u8, g: u8, b: u8) -> Rgb {
    Rgb { r, g, b }
}

fn three_rows() -> Calibration {
    Calibration {
        colors: ColorTable { entries: vec![(0, rgb(255, 0, 0)), (1, rgb(0, 255, 0)), (2, rgb(0, 0, 255))] },
        values: ValueTable {
            entries: vec![(0, Ratio::whole(10)), (1, Ratio::whole(20)), (2, Ratio::whole(30))],
        },
    }
}

fn settings() -> Settings {
    Settings {
        scan_first: 0,
        scan_last: 2,
        sample_first: 0,
        sample_last: 0,
        anchors: vec![Anchor { row: 0, value: 10 }, Anchor { row: 2, value: 30 }],
        tint: rgb(0, 0, 255),
        saturation: 50,
    }
}

#[test]
fn classify_three_rows() {
    let c = three_rows();
    assert_eq!(classify(rgb(250, 5, 5), &c.colors, &c.values), Some(Ratio::whole(10)));
    assert_eq!(classify(rgb(0, 0, 250), &c.colors, &c.values), Some(Ratio::whole(30)));
    assert_eq!(classify(rgb(10, 240, 0), &c.colors, &c.values), Some(Ratio::whole(20)));
}

#[test]
fn classify_is_repeatable() {
    let c = three_rows();
    let first = classify(rgb(120, 130, 0), &c.colors, &c.values);
    for _ in 0..5 {
        assert_eq!(classify(rgb(120, 130, 0), &c.colors, &c.values), first);
    }
}

#[test]
fn nearest_tie_goes_to_first_row() {
    let t = ColorTable { entries: vec![(3, rgb(10, 0, 0)), (4, rgb(10, 0, 0)), (5, rgb(0, 0, 0))] };
    assert_eq!(nearest_index(&t, rgb(10, 0, 0)), Some(0));
    assert_eq!(nearest_index(&t, rgb(5, 0, 0)), Some(0));
    assert_eq!(nearest_index(&ColorTable { entries: vec![] }, rgb(5, 0, 0)), None);
}

#[test]
fn classify_gap_gives_none() {
    let c = Calibration {
        colors: ColorTable { entries: vec![(0, rgb(255, 0, 0)), (1, rgb(0, 255, 0))] },
        values: ValueTable { entries: vec![(1, Ratio::whole(20))] },
    };
    assert_eq!(classify(rgb(255, 0, 0), &c.colors, &c.values), None);
    assert_eq!(lookup_value(&c.values, 1), Some(Ratio::whole(20)));
    assert_eq!(lookup_value(&c.values, 0), None);
    let empty = ColorTable { entries: vec![] };
    assert_eq!(classify(rgb(255, 0, 0), &empty, &c.values), None);
}

#[test]
fn two_pixel_overlay() {
    let img = Raster::from_pixels(2, 1, vec![rgb(255, 0, 0), rgb(0, 0, 255)]).unwrap();
    let out = transform(&img, &three_rows(), &settings());
    assert_eq!(out.width, 2);
    assert_eq!(out.height, 1);
    assert_eq!(out.pixels, vec![Rgba { r: 0, g: 0, b: 255, a: 51 }, Rgba { r: 0, g: 0, b: 255, a: 153 }]);
}

#[test]
fn overlay_leaves_gaps_transparent() {
    let c = Calibration {
        colors: three_rows().colors,
        values: ValueTable { entries: vec![(0, Ratio::whole(60))] },
    };
    let img = Raster::from_pixels(1, 2, vec![rgb(250, 0, 0), rgb(0, 250, 0)]).unwrap();
    let row = transform_row(&img, 1, &c, &settings());
    assert_eq!(row, vec![None]);
    let out = transform(&img, &c, &settings());
    assert_eq!(out.pixels, vec![Rgba { r: 0, g: 0, b: 255, a: 255 }, Rgba { r: 0, g: 0, b: 0, a: 0 }]);
}

#[test]
fn assemble_rows_in_order() {
    let p = Rgba { r: 1, g: 2, b: 3, a: 4 };
    let rows = vec![vec![Some(p), None], vec![None, Some(p)]];
    let out = assemble_rows(2, 2, &rows);
    let clear = Rgba { r: 0, g: 0, b: 0, a: 0 };
    assert_eq!(out.pixels, vec![p, clear, clear, p]);
}

#[test]
fn png_round_trip() {
    let out = RgbaRaster {
        width: 2,
        height: 1,
        pixels: vec![Rgba { r: 9, g: 8, b: 7, a: 255 }, Rgba { r: 1, g: 2, b: 3, a: 255 }],
    };
    let bytes = encode_png(&out).unwrap();
    assert_eq!(&bytes[1..4], b"PNG");
    let back = decode_image(&bytes).unwrap();
    assert_eq!((back.width, back.height), (2, 1));
    assert_eq!(back.pixels, vec![rgb(9, 8, 7), rgb(1, 2, 3)]);
}

#[test]
fn corrupt_bytes_fail_to_decode() {
    assert_eq!(decode_image(b"definitely not an image").err(), Some(CodecError::Decode));
}

#[test]
fn corrupt_image_does_not_stop_others() {
    let source = RgbaRaster {
        width: 2,
        height: 1,
        pixels: vec![Rgba { r: 255, g: 0, b: 0, a: 255 }, Rgba { r: 0, g: 0, b: 255, a: 255 }],
    };
    let good = encode_png(&source).unwrap();
    let inputs: Vec<Vec<u8>> = vec![good.clone(), b"broken".to_vec(), good];
    let results: Vec<_> = inputs.iter().map(|b| overlay_png(b, &three_rows(), &settings())).collect();
    assert_eq!(results[1], Err(CodecError::Decode));
    for r in [&results[0], &results[2]] {
        let out = decode_image(r.as_ref().unwrap()).unwrap();
        assert_eq!((out.width, out.height), (2, 1));
        assert_eq!(out.pixels, vec![rgb(0, 0, 255), rgb(0, 0, 255)]);
    }
}

#[test]
fn empty_grid_fails_to_encode() {
    let out = RgbaRaster { width: 0, height: 0, pixels: vec![] };
    assert_eq!(encode_png(&out), Err(CodecError::Encode));
    let wide = RgbaRaster { width: 3, height: 0, pixels: vec![] };
    assert_eq!(encode_png(&wide), Err(CodecError::Encode));
}
