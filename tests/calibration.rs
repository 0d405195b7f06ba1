use alfamap::alpha::{alpha, Ratio};
use alfamap::calibration::{
    build_color_table, build_value_table, calibrate, interpolate, value_for_row, Anchor, Settings,
};
use alfamap::color::{color_distance, Rgb};
use alfamap::raster::{sample_average, Raster, SampleError};

fn rgb(r: u8, g: u8, b: u8) -> Rgb {
    Rgb { r, g, b }
}

fn grid(width: u32, height: u32, f: impl Fn(u32, u32) -> Rgb) -> Raster {
    let mut pixels = Vec::new();
    for y in 0..height {
        for x in 0..width {
            pixels.push(f(x, y));
        }
    }
    Raster::from_pixels(width, height, pixels).unwrap()
}

fn same_value(r: Ratio, num: i128, den: i128) -> bool {
    r.den > 0 && r.num * den == num * r.den as i128
}

#[test]
fn alpha_ramp_points() {
    assert_eq!(alpha(Ratio::whole(-5), 50), 0);
    assert_eq!(alpha(Ratio::whole(0), 50), 0);
    assert_eq!(alpha(Ratio::whole(25), 50), 127);
    assert_eq!(alpha(Ratio::whole(50), 50), 255);
    assert_eq!(alpha(Ratio::whole(1000), 50), 255);
    assert_eq!(alpha(Ratio::whole(10), 50), 51);
    assert_eq!(alpha(Ratio { num: 1, den: 3 }, 1), 85);
}

#[test]
fn alpha_never_decreases() {
    let mut last = 0u8;
    for v in -20i64..80 {
        let a = alpha(Ratio { num: v as i128, den: 2 }, 25);
        assert!(a >= last);
        last = a;
    }
    assert_eq!(last, 255);
}

#[test]
fn distance_is_sum_of_squares() {
    assert_eq!(color_distance(rgb(250, 5, 5), rgb(255, 0, 0)), 75);
    assert_eq!(color_distance(rgb(0, 0, 0), rgb(255, 255, 255)), 3 * 65025);
    assert_eq!(color_distance(rgb(7, 8, 9), rgb(7, 8, 9)), 0);
}

#[test]
fn sample_mean_rounds_down() {
    let img = grid(3, 2, |x, y| rgb((10 + 10 * x + y) as u8, 1 + x as u8, 255));
    // row 1 red: 11, 21, 31; green: 1, 2, 3
    assert_eq!(sample_average(&img, 1, 0, 2), Ok(rgb(21, 2, 255)));
    let img = grid(2, 1, |x, _| rgb(x as u8, 0, 3 * x as u8));
    assert_eq!(sample_average(&img, 0, 0, 1), Ok(rgb(0, 0, 1)));
    assert_eq!(sample_average(&img, 0, 1, 1), Ok(rgb(1, 0, 3)));
}

#[test]
fn sample_empty_span() {
    let img = grid(4, 4, |_, _| rgb(1, 2, 3));
    assert_eq!(sample_average(&img, 0, 3, 1), Err(SampleError::EmptySpan));
}

#[test]
fn sample_out_of_bounds() {
    let img = grid(4, 4, |_, _| rgb(1, 2, 3));
    assert_eq!(sample_average(&img, 4, 0, 1), Err(SampleError::OutOfBounds));
    assert_eq!(sample_average(&img, 0, 2, 4), Err(SampleError::OutOfBounds));
}

#[test]
fn raster_rejects_wrong_pixel_count() {
    assert!(Raster::from_pixels(2, 2, vec![rgb(0, 0, 0); 3]).is_none());
    assert!(Raster::from_pixels(2, 2, vec![rgb(0, 0, 0); 4]).is_some());
}

#[test]
fn interpolate_between_anchors() {
    let p = Anchor { row: 7, value: 500 };
    let q = Anchor { row: 41, value: 434 };
    let r = interpolate(p, q, 24);
    assert_eq!(r.den, 34);
    assert_eq!(r.num, 500 * 34 - 66 * 17);
    assert!(same_value(r, 467, 1));
}

#[test]
fn standard_anchor_rows_are_exact() {
    let s = Settings::standard();
    for a in s.anchors.iter() {
        let v = value_for_row(&s.anchors, a.row).unwrap();
        assert!(same_value(v, a.value as i128, 1));
    }
}

#[test]
fn rows_outside_anchors_have_no_value() {
    let s = Settings::standard();
    assert!(value_for_row(&s.anchors, 6).is_none());
    assert!(value_for_row(&s.anchors, 473).is_none());
    assert!(value_for_row(&s.anchors, 0).is_none());
}

#[test]
fn value_table_spans_anchor_rows() {
    let s = Settings::standard();
    let t = build_value_table(&s.anchors, 0, 500);
    assert_eq!(t.entries.len(), 472 - 7 + 1);
    assert_eq!(t.entries[0].0, 7);
    assert_eq!(t.entries[t.entries.len() - 1].0, 472);
    let t = build_value_table(&s.anchors, 0, 10);
    let rows: Vec<u32> = t.entries.iter().map(|e| e.0).collect();
    assert_eq!(rows, vec![7, 8, 9, 10]);
}

#[test]
fn values_fall_down_the_legend() {
    let s = Settings::standard();
    let t = build_value_table(&s.anchors, s.scan_first, s.scan_last);
    for w in t.entries.windows(2) {
        let (a, b) = (w[0].1, w[1].1);
        assert!(b.num * a.den as i128 <= a.num * b.den as i128);
    }
}

#[test]
fn color_table_skips_failed_rows() {
    let img = grid(3, 4, |_, y| rgb(y as u8, 0, 0));
    let t = build_color_table(&img, 2, 6, 0, 2);
    assert_eq!(t.entries, vec![(2, rgb(2, 0, 0)), (3, rgb(3, 0, 0))]);
    let t = build_color_table(&img, 0, 3, 2, 1);
    assert!(t.entries.is_empty());
}

#[test]
fn calibrate_standard_legend() {
    let img = grid(659, 473, |x, y| if x >= 650 { rgb((y / 2) as u8, 0, 0) } else { rgb(0, 0, 0) });
    let s = Settings::standard();
    let c = calibrate(&img, &s);
    assert_eq!(c.colors.entries.len(), 466);
    assert_eq!(c.values.entries.len(), 466);
    assert_eq!(c.colors.entries[0], (7, rgb(3, 0, 0)));
    assert!(same_value(c.values.entries[0].1, 500, 1));
}

#[test]
fn interpolate_past_segment_end() {
    let r = interpolate(Anchor { row: 0, value: 10 }, Anchor { row: 2, value: 30 }, 4);
    assert_eq!(r.den, 2);
    assert!(same_value(r, 50, 1));
}
