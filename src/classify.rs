use vstd::prelude::*;
use crate::alpha::Ratio;
use crate::calibration::{has_row, ColorTable, ValueTable};
use crate::color::{color_distance, distance, Rgb};

verus! {

/// Entry `i` is the nearest to `c` among the first `n` entries, and no entry
/// before it is as near: ties go to the earliest entry, which in a table with
/// ascending rows is the lowest row.
pub open spec fn nearest_among(s: Seq<(u32, Rgb)>, c: Rgb, n: int, i: int) -> bool {
    &&& 0 <= i < n <= s.len()
    &&& forall|j: int| 0 <= j < n ==> distance(s[i].1, c) <= distance(#[trigger] s[j].1, c)
    &&& forall|j: int| 0 <= j < i ==> distance(#[trigger] s[j].1, c) > distance(s[i].1, c)
}

/// Entry `i` is the nearest to `c` in the whole table.
pub open spec fn is_nearest(s: Seq<(u32, Rgb)>, c: Rgb, i: int) -> bool {
    nearest_among(s, c, s.len() as int, i)
}

/// Entry `k` is the first with row `y`.
pub open spec fn is_first_row<V>(s: Seq<(u32, V)>, y: int, k: int) -> bool {
    &&& 0 <= k < s.len()
    &&& s[k].0 == y
    &&& forall|j: int| 0 <= j < k ==> (#[trigger] s[j]).0 != y
}

/// The value recorded for row `y`, if any.
pub open spec fn lookup(t: Seq<(u32, Ratio)>, y: int) -> Option<Ratio> {
    if has_row(t, y) {
        Some(t[choose|k: int| is_first_row(t, y, k)].1)
    } else {
        None
    }
}

/// Value of the row whose colour is nearest to `c`; `None` for an empty colour
/// table or when the value table has no entry for that row.
pub open spec fn classification(colors: Seq<(u32, Rgb)>, values: Seq<(u32, Ratio)>, c: Rgb) -> Option<Ratio> {
    if colors.len() == 0 {
        None
    } else {
        lookup(values, colors[choose|i: int| is_nearest(colors, c, i)].0 as int)
    }
}

/// Position of the entry nearest to `c`; `None` when the table is empty.
pub fn nearest_index(colors: &ColorTable, c: Rgb) -> (r: Option<usize>)
    ensures
        r is None <==> colors.entries@.len() == 0,
        r matches Some(i) ==> is_nearest(colors.entries@, c, i as int),
{
    let n = colors.entries.len();
    if n == 0 {
        return None;
    }
    let mut best: usize = 0;
    let mut best_distance: u32 = color_distance(colors.entries[0].1, c);
    let mut k: usize = 1;
    while k < n
        invariant
            n == colors.entries@.len(),
            1 <= k <= n,
            nearest_among(colors.entries@, c, k as int, best as int),
            best_distance as int == distance(colors.entries@[best as int].1, c),
        decreases n - k,
    {
        let d = color_distance(colors.entries[k].1, c);
        if d < best_distance {
            best = k;
            best_distance = d;
        }
        k = k + 1;
    }
    Some(best)
}

/// Value recorded for row `y`; the first entry with that row decides.
pub fn lookup_value(values: &ValueTable, y: u32) -> (r: Option<Ratio>)
    ensures
        r is Some <==> has_row(values.entries@, y as int),
        r matches Some(v) ==> exists|k: int| is_first_row(values.entries@, y as int, k) && values.entries@[k].1 == v,
{
    let n = values.entries.len();
    let mut k: usize = 0;
    while k < n
        invariant
            n == values.entries@.len(),
            k <= n,
            forall|j: int| 0 <= j < k ==> (#[trigger] values.entries@[j]).0 != y,
        decreases n - k,
    {
        if values.entries[k].0 == y {
            assert(is_first_row(values.entries@, y as int, k as int));
            return Some(values.entries[k].1);
        }
        k = k + 1;
    }
    None
}

/// Only one entry of a table is the nearest to a given colour, so the same
/// colour always picks the same row of the same table.
pub proof fn nearest_is_unique(s: Seq<(u32, Rgb)>, c: Rgb, i: int, j: int)
    requires
        is_nearest(s, c, i),
        is_nearest(s, c, j),
    ensures
        i == j,
{
    if i < j {
        assert(distance(s[i].1, c) > distance(s[j].1, c));
    } else if j < i {
        assert(distance(s[j].1, c) > distance(s[i].1, c));
    }
}

/// A non-empty table always has an entry nearest to a colour.
pub proof fn nearest_exists(s: Seq<(u32, Rgb)>, c: Rgb, n: int) -> (i: int)
    requires
        1 <= n <= s.len(),
    ensures
        nearest_among(s, c, n, i),
    decreases n,
{
    if n == 1 {
        0
    } else {
        let i = nearest_exists(s, c, n - 1);
        if distance(s[n - 1].1, c) < distance(s[i].1, c) {
            n - 1
        } else {
            i
        }
    }
}

/// In colour tables whose rows ascend, the classification depends only on
/// which entries a table holds, not on the order they were gathered in: the
/// nearest colour wins and, among equally near ones, the lowest row.
pub proof fn classification_ignores_order(
    c1: Seq<(u32, Rgb)>,
    c2: Seq<(u32, Rgb)>,
    values: Seq<(u32, Ratio)>,
    c: Rgb,
)
    requires
        crate::calibration::rows_ascending(c1),
        crate::calibration::rows_ascending(c2),
        forall|e: (u32, Rgb)| c1.contains(e) <==> c2.contains(e),
    ensures
        classification(c1, values, c) == classification(c2, values, c),
{
    if c1.len() == 0 {
        if c2.len() > 0 {
            assert(c2.contains(c2[0]));
        }
    } else if c2.len() == 0 {
        assert(c1.contains(c1[0]));
    } else {
        let w1 = nearest_exists(c1, c, c1.len() as int);
        let w2 = nearest_exists(c2, c, c2.len() as int);
        assert(is_nearest(c1, c, w1));
        assert(is_nearest(c2, c, w2));
        let i1 = choose|i: int| is_nearest(c1, c, i);
        let i2 = choose|i: int| is_nearest(c2, c, i);
        assert(c1.contains(c1[i1]));
        assert(c2.contains(c2[i2]));
        let j2 = choose|j: int| 0 <= j < c2.len() && c2[j] == c1[i1];
        let j1 = choose|j: int| 0 <= j < c1.len() && c1[j] == c2[i2];
        assert(distance(c1[i1].1, c) == distance(c2[i2].1, c)) by {
            assert(distance(c2[i2].1, c) <= distance(c2[j2].1, c));
            assert(distance(c1[i1].1, c) <= distance(c1[j1].1, c));
        }
        if j1 < i1 {
            assert(distance(c1[j1].1, c) > distance(c1[i1].1, c));
        }
        if j2 < i2 {
            assert(distance(c2[j2].1, c) > distance(c2[i2].1, c));
        }
        assert(c1[i1].0 == c2[i2].0) by {
            if j1 > i1 {
                assert(c1[i1].0 < c1[j1].0);
            }
            if j2 > i2 {
                assert(c2[i2].0 < c2[j2].0);
            }
        }
    }
}

proof fn first_row_is_unique<V>(s: Seq<(u32, V)>, y: int, k1: int, k2: int)
    requires
        is_first_row(s, y, k1),
        is_first_row(s, y, k2),
    ensures
        k1 == k2,
{
    if k1 < k2 {
        assert(s[k1].0 != y);
    } else if k2 < k1 {
        assert(s[k2].0 != y);
    }
}

/// Value of the calibrated row whose colour is nearest to `c`: the earliest
/// entry wins a tie, and `None` comes from an empty colour table or from a row
/// that the value table lacks.
pub fn classify(c: Rgb, colors: &ColorTable, values: &ValueTable) -> (r: Option<Ratio>)
    ensures
        r == classification(colors.entries@, values.entries@, c),
        r matches Some(v) ==> exists|k: int| 0 <= k < values.entries@.len() && values.entries@[k].1 == v,
{
    match nearest_index(colors, c) {
        None => None,
        Some(i) => {
            let row = colors.entries[i].0;
            let r = lookup_value(values, row);
            proof {
                let s = colors.entries@;
                let i2 = choose|i2: int| is_nearest(s, c, i2);
                nearest_is_unique(s, c, i as int, i2);
                let t = values.entries@;
                if r is Some {
                    let k = choose|k: int| is_first_row(t, row as int, k) && t[k].1 == r->Some_0;
                    let k2 = choose|k2: int| is_first_row(t, row as int, k2);
                    first_row_is_unique(t, row as int, k, k2);
                }
            }
            r
        },
    }
}
} // verus!
