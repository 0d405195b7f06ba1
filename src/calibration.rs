use vstd::prelude::*;
use crate::alpha::Ratio;
use crate::color::Rgb;
use crate::raster::{sample_average, sample_result, Raster};

verus! {

/// A known point of the value curve: the value that row `row` of the legend
/// stands for.
#[derive(Clone, Copy, Debug, PartialEq, Eq, Structural)]
pub struct Anchor {
    pub row: u32,
    pub value: i64,
}

/// Rows strictly increase along the anchor list.
pub open spec fn anchors_ascending(a: Seq<Anchor>) -> bool {
    forall|i: int, j: int| 0 <= i < j < a.len() ==> a[i].row < a[j].row
}

/// Values never increase along the anchor list.
pub open spec fn values_non_increasing(a: Seq<Anchor>) -> bool {
    forall|i: int, j: int| 0 <= i < j < a.len() ==> a[i].value >= a[j].value
}

/// Segment `i`, from anchor `i` to anchor `i + 1`, holds row `y`.
pub open spec fn covers(a: Seq<Anchor>, i: int, y: int) -> bool {
    0 <= i && i + 1 < a.len() && a[i].row <= y <= a[i + 1].row
}

/// The value at row `y` on the line through anchors `p` and `q`, as a
/// fraction (numerator, denominator).
pub open spec fn interp_value(p: Anchor, q: Anchor, y: int) -> (int, int) {
    (
        p.value * (q.row - p.row) + (q.value - p.value) * (y - p.row),
        q.row - p.row,
    )
}

/// Value at row `y` from the first segment at or after `i` that holds it.
pub open spec fn value_from(a: Seq<Anchor>, i: int, y: int) -> Option<(int, int)>
    decreases a.len() - i,
{
    if i < 0 || i + 1 >= a.len() {
        None
    } else if covers(a, i, y) {
        Some(interp_value(a[i], a[i + 1], y))
    } else {
        value_from(a, i + 1, y)
    }
}

/// Interpolated value of row `y`: the first segment that holds it decides.
pub open spec fn value_at(a: Seq<Anchor>, y: int) -> Option<(int, int)> {
    value_from(a, 0, y)
}

/// `r` is the fraction `v`.
pub open spec fn ratio_is(r: Ratio, v: (int, int)) -> bool {
    r.num == v.0 && r.den == v.1
}

/// Value at row `y` on the line through anchors `p` and `q`, for a row at or
/// after `p`'s.
pub fn interpolate(p: Anchor, q: Anchor, y: u32) -> (r: Ratio)
    requires
        p.row < q.row,
        p.row <= y,
    ensures
        r.wf(),
        ratio_is(r, interp_value(p, q, y as int)),
{
    let d: u32 = q.row - p.row;
    let t: u32 = y - p.row;
    let step: i128 = p.value as i128 - q.value as i128;
    proof {
        assert(-0x8000_0000_0000_0000_0000_0000 < p.value * d < 0x8000_0000_0000_0000_0000_0000)
            by (nonlinear_arith)
            requires
                -0x8000_0000_0000_0000 <= p.value < 0x8000_0000_0000_0000,
                0 <= d < 0x1_0000_0000,
        ;
        assert(-0x1_0000_0000_0000_0000_0000_0000 < step * t < 0x1_0000_0000_0000_0000_0000_0000)
            by (nonlinear_arith)
            requires
                -0x1_0000_0000_0000_0000 <= step < 0x1_0000_0000_0000_0000,
                0 <= t < 0x1_0000_0000,
        ;
        assert((q.value - p.value) * t == -(step * t)) by (nonlinear_arith)
            requires
                step == p.value - q.value,
        ;
    }
    let base: i128 = p.value as i128 * d as i128;
    Ratio { num: base - step * t as i128, den: d }
}

/// Value at row `y`: the first segment, in anchor order, whose end rows hold
/// `y` decides; `None` when no segment holds it.
pub fn value_for_row(anchors: &Vec<Anchor>, y: u32) -> (r: Option<Ratio>)
    requires
        anchors_ascending(anchors@),
    ensures
        r matches Some(v) ==> v.wf(),
        r is Some <==> value_at(anchors@, y as int) is Some,
        r matches Some(v) ==> ratio_is(v, value_at(anchors@, y as int)->Some_0),
{
    let n = anchors.len();
    if n < 2 {
        return None;
    }
    let mut i: usize = 0;
    while i < n - 1
        invariant
            anchors_ascending(anchors@),
            n == anchors@.len(),
            n >= 2,
            i <= n - 1,
            value_from(anchors@, 0, y as int) == value_from(anchors@, i as int, y as int),
        decreases anchors@.len() - i,
    {
        let p = anchors[i];
        let q = anchors[i + 1];
        if p.row <= y && y <= q.row {
            return Some(interpolate(p, q, y));
        }
        i = i + 1;
    }
    None
}

/// Rows strictly increase along a table, so each row appears at most once.
pub open spec fn rows_ascending<V>(s: Seq<(u32, V)>) -> bool {
    forall|i: int, j: int| 0 <= i < j < s.len() ==> s[i].0 < s[j].0
}

/// `y` is a row of the table.
pub open spec fn has_row<V>(s: Seq<(u32, V)>, y: int) -> bool {
    exists|k: int| 0 <= k < s.len() && s[k].0 == y
}

/// Mean legend colour of each calibrated row.
#[derive(Clone, Debug)]
pub struct ColorTable {
    pub entries: Vec<(u32, Rgb)>,
}

/// Interpolated value of each calibrated row.
#[derive(Clone, Debug)]
pub struct ValueTable {
    pub entries: Vec<(u32, Ratio)>,
}

impl ColorTable {
    pub open spec fn wf(&self) -> bool {
        rows_ascending(self.entries@)
    }
}

impl ValueTable {
    pub open spec fn wf(&self) -> bool {
        rows_ascending(self.entries@) && forall|k: int|
            0 <= k < self.entries@.len() ==> (#[trigger] self.entries@[k]).1.wf()
    }
}

/// `t` holds, in ascending order, exactly the rows `first..=last` whose
/// sample over columns `col_first..=col_last` of `img` succeeds, each with
/// that sample.
pub open spec fn is_color_table(t: Seq<(u32, Rgb)>, img: Raster, first: u32, last: u32, col_first: u32, col_last: u32) -> bool {
    &&& rows_ascending(t)
    &&& forall|k: int|
        0 <= k < t.len() ==> first <= (#[trigger] t[k]).0 <= last
            && sample_result(img, t[k].0, col_first, col_last) == Ok::<Rgb, crate::raster::SampleError>(t[k].1)
    &&& forall|y: u32|
        first <= y <= last && (#[trigger] sample_result(img, y, col_first, col_last)) is Ok
            ==> has_row(t, y as int)
}

/// `t` holds, in ascending order, exactly the rows `first..=last` that some
/// anchor segment holds, each with its interpolated value.
pub open spec fn is_value_table(t: Seq<(u32, Ratio)>, a: Seq<Anchor>, first: u32, last: u32) -> bool {
    &&& rows_ascending(t)
    &&& forall|k: int|
        0 <= k < t.len() ==> first <= (#[trigger] t[k]).0 <= last
            && value_at(a, t[k].0 as int) is Some
            && ratio_is(t[k].1, value_at(a, t[k].0 as int)->Some_0)
    &&& forall|y: u32|
        first <= y <= last && (#[trigger] value_at(a, y as int)) is Some
            ==> has_row(t, y as int)
}

/// Colour table sampled from `img`: rows `first..=last`, each averaged over
/// columns `col_first..=col_last`. A row whose sample fails is left out.
pub fn build_color_table(img: &Raster, first: u32, last: u32, col_first: u32, col_last: u32) -> (t: ColorTable)
    requires
        img.wf(),
    ensures
        t.wf(),
        is_color_table(t.entries@, *img, first, last, col_first, col_last),
{
    let mut entries: Vec<(u32, Rgb)> = Vec::new();
    if first > last {
        return ColorTable { entries };
    }
    let mut y: u64 = first as u64;
    while y <= last as u64
        invariant
            img.wf(),
            first <= y <= last as int + 1,
            rows_ascending(entries@),
            forall|k: int|
                0 <= k < entries@.len() ==> first <= (#[trigger] entries@[k]).0 < y
                    && sample_result(*img, entries@[k].0, col_first, col_last) == Ok::<Rgb, crate::raster::SampleError>(entries@[k].1),
            forall|z: u32|
                first <= z < y && (#[trigger] sample_result(*img, z, col_first, col_last)) is Ok
                    ==> has_row(entries@, z as int),
        decreases last as int + 1 - y,
    {
        let row = y as u32;
        match sample_average(img, row, col_first, col_last) {
            Ok(c) => {
                let ghost before = entries@;
                entries.push((row, c));
                assert forall|z: u32|
                    first <= z < y + 1 && (#[trigger] sample_result(*img, z, col_first, col_last)) is Ok
                    implies has_row(entries@, z as int) by {
                    if z < y {
                        let k = choose|k: int| 0 <= k < before.len() && before[k].0 == z;
                        assert(entries@[k] == before[k]);
                    } else {
                        assert(entries@[before.len() as int].0 == z);
                    }
                }
            },
            Err(_) => {},
        }
        y = y + 1;
    }
    ColorTable { entries }
}
/// Value table for rows `first..=last`: each row that some anchor segment
/// holds, with its interpolated value. Rows outside every segment are left out.
pub fn build_value_table(anchors: &Vec<Anchor>, first: u32, last: u32) -> (t: ValueTable)
    requires
        anchors_ascending(anchors@),
    ensures
        t.wf(),
        is_value_table(t.entries@, anchors@, first, last),
{
    let mut entries: Vec<(u32, Ratio)> = Vec::new();
    if first > last {
        return ValueTable { entries };
    }
    let mut y: u64 = first as u64;
    while y <= last as u64
        invariant
            anchors_ascending(anchors@),
            first <= y <= last as int + 1,
            rows_ascending(entries@),
            forall|k: int|
                0 <= k < entries@.len() ==> first <= (#[trigger] entries@[k]).0 < y
                    && entries@[k].1.wf()
                    && value_at(anchors@, entries@[k].0 as int) is Some
                    && ratio_is(entries@[k].1, value_at(anchors@, entries@[k].0 as int)->Some_0),
            forall|z: u32|
                first <= z < y && (#[trigger] value_at(anchors@, z as int)) is Some
                    ==> has_row(entries@, z as int),
        decreases last as int + 1 - y,
    {
        let row = y as u32;
        match value_for_row(anchors, row) {
            Some(v) => {
                let ghost before = entries@;
                entries.push((row, v));
                assert forall|z: u32|
                    first <= z < y + 1 && (#[trigger] value_at(anchors@, z as int)) is Some
                    implies has_row(entries@, z as int) by {
                    if z < y {
                        let k = choose|k: int| 0 <= k < before.len() && before[k].0 == z;
                        assert(entries@[k] == before[k]);
                    } else {
                        assert(entries@[before.len() as int].0 == z);
                    }
                }
            },
            None => {},
        }
        y = y + 1;
    }
    ValueTable { entries }
}
/// Anchors of the usual legend, values in tenths of a unit.
pub open spec fn standard_anchors() -> Seq<Anchor> {
    seq![
        Anchor { row: 7, value: 500 },
        Anchor { row: 41, value: 434 },
        Anchor { row: 79, value: 367 },
        Anchor { row: 120, value: 309 },
        Anchor { row: 161, value: 254 },
        Anchor { row: 200, value: 208 },
        Anchor { row: 240, value: 166 },
        Anchor { row: 280, value: 129 },
        Anchor { row: 322, value: 100 },
        Anchor { row: 361, value: 68 },
        Anchor { row: 401, value: 43 },
        Anchor { row: 440, value: 22 },
        Anchor { row: 472, value: 0 },
    ]
}

/// How a legend is read and how values are shown.
#[derive(Clone, Debug)]
pub struct Settings {
    /// First legend row scanned.
    pub scan_first: u32,
    /// Last legend row scanned.
    pub scan_last: u32,
    /// First column averaged on each scanned row.
    pub sample_first: u32,
    /// Last column averaged on each scanned row.
    pub sample_last: u32,
    /// Known (row, value) points, rows strictly ascending.
    pub anchors: Vec<Anchor>,
    /// Colour of every output pixel.
    pub tint: Rgb,
    /// Value, in the anchors' unit, at which the output becomes fully opaque.
    pub saturation: u32,
}

impl Settings {
    pub open spec fn wf(&self) -> bool {
        &&& self.anchors@.len() >= 2
        &&& anchors_ascending(self.anchors@)
        &&& self.saturation > 0
    }

    /// The usual legend: rows 7 to 472 averaged over columns 650 to 658,
    /// values in tenths of a unit from 50.0 at the top to 0.0 at the bottom,
    /// a blue tint and full opacity from 50.0 on.
    pub fn standard() -> (r: Settings)
        ensures
            r.wf(),
            values_non_increasing(r.anchors@),
            r.scan_first == 7 && r.scan_last == 472,
            r.sample_first == 650 && r.sample_last == 658,
            r.tint == (Rgb { r: 0, g: 0, b: 255 }),
            r.saturation == 500,
            r.anchors@ == standard_anchors(),
    {
        let rows: [u32; 13] = [7, 41, 79, 120, 161, 200, 240, 280, 322, 361, 401, 440, 472];
        let values: [i64; 13] = [500, 434, 367, 309, 254, 208, 166, 129, 100, 68, 43, 22, 0];
        let mut anchors: Vec<Anchor> = Vec::new();
        let mut i: usize = 0;
        while i < 13
            invariant
                i <= 13,
                anchors@.len() == i,
                forall|k: int| 0 <= k < i ==> (#[trigger] anchors@[k]) == (Anchor { row: rows@[k], value: values@[k] }),
            decreases 13 - i,
        {
            anchors.push(Anchor { row: rows[i], value: values[i] });
            i = i + 1;
        }
        let ghost expected = standard_anchors();
        assert(anchors@ =~= expected);
        Settings {
            scan_first: 7,
            scan_last: 472,
            sample_first: 650,
            sample_last: 658,
            anchors,
            tint: Rgb { r: 0, g: 0, b: 255 },
            saturation: 500,
        }
    }
}

/// The two tables read from a legend image.
#[derive(Clone, Debug)]
pub struct Calibration {
    pub colors: ColorTable,
    pub values: ValueTable,
}

/// Reads the colour and value tables from the legend image `img`.
pub fn calibrate(img: &Raster, settings: &Settings) -> (c: Calibration)
    requires
        img.wf(),
        settings.wf(),
    ensures
        c.colors.wf(),
        c.values.wf(),
        is_color_table(
            c.colors.entries@,
            *img,
            settings.scan_first,
            settings.scan_last,
            settings.sample_first,
            settings.sample_last,
        ),
        is_value_table(c.values.entries@, settings.anchors@, settings.scan_first, settings.scan_last),
{
    let colors = build_color_table(
        img,
        settings.scan_first,
        settings.scan_last,
        settings.sample_first,
        settings.sample_last,
    );
    let values = build_value_table(&settings.anchors, settings.scan_first, settings.scan_last);
    Calibration { colors, values }
}
} // verus!
