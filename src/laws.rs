use vstd::prelude::*;
use crate::alpha::Ratio;
use crate::calibration::{
    rows_ascending,
    anchors_ascending, covers, has_row, interp_value, is_value_table, value_at, value_from,
    standard_anchors, values_non_increasing, Anchor,
};

verus! {

proof fn lemma_first_segment(a: Seq<Anchor>, i: int, y: int, k: int)
    requires
        0 <= i <= k,
        covers(a, k, y),
        forall|j: int| i <= j < k ==> !covers(a, j, y),
    ensures
        value_from(a, i, y) == Some(interp_value(a[k], a[k + 1], y)),
    decreases k - i,
{
    if i < k {
        lemma_first_segment(a, i + 1, y, k);
    }
}

proof fn segment_of(a: Seq<Anchor>, i: int, y: int) -> (k: int)
    requires
        i >= 0,
        value_from(a, i, y) is Some,
    ensures
        i <= k,
        covers(a, k, y),
        forall|j: int| i <= j < k ==> !covers(a, j, y),
        value_from(a, i, y) == Some(interp_value(a[k], a[k + 1], y)),
    decreases a.len() - i,
{
    if covers(a, i, y) {
        i
    } else {
        segment_of(a, i + 1, y)
    }
}

proof fn lemma_spanned_has_value(a: Seq<Anchor>, i: int, y: int)
    requires
        anchors_ascending(a),
        0 <= i,
        i + 1 < a.len(),
        a[i].row <= y <= a[a.len() - 1].row,
    ensures
        value_from(a, i, y) is Some,
    decreases a.len() - i,
{
    if !covers(a, i, y) {
        lemma_spanned_has_value(a, i + 1, y);
    }
}

/// A row has an interpolated value exactly when it lies between the first
/// and the last anchor row.
pub proof fn value_iff_within_anchors(a: Seq<Anchor>, y: int)
    requires
        anchors_ascending(a),
        a.len() >= 2,
    ensures
        value_at(a, y) is Some <==> a[0].row <= y <= a[a.len() - 1].row,
{
    if value_at(a, y) is Some {
        let k = segment_of(a, 0, y);
        if k > 0 {
            assert(a[0].row < a[k].row);
        }
        if k + 1 < a.len() - 1 {
            assert(a[k + 1].row < a[a.len() - 1].row);
        }
    }
    if a[0].row <= y <= a[a.len() - 1].row {
        lemma_spanned_has_value(a, 0, y);
    }
}

/// Over a scan range, the value table holds a row exactly when the row lies
/// between the first and the last anchor row.
pub proof fn value_table_rows(t: Seq<(u32, Ratio)>, a: Seq<Anchor>, first: u32, last: u32, y: u32)
    requires
        anchors_ascending(a),
        a.len() >= 2,
        is_value_table(t, a, first, last),
        first <= y <= last,
    ensures
        has_row(t, y as int) <==> a[0].row <= y <= a[a.len() - 1].row,
{
    value_iff_within_anchors(a, y as int);
    if has_row(t, y as int) {
        let k = choose|k: int| 0 <= k < t.len() && t[k].0 == y;
        assert(value_at(a, t[k].0 as int) is Some);
    }
    if a[0].row <= y <= a[a.len() - 1].row {
        assert(value_at(a, y as int) is Some);
    }
}

/// At an anchor's own row the interpolated value is that anchor's value.
pub proof fn value_at_anchor_row(a: Seq<Anchor>, i: int)
    requires
        anchors_ascending(a),
        a.len() >= 2,
        0 <= i < a.len(),
    ensures
        value_at(a, a[i].row as int) is Some,
        value_at(a, a[i].row as int)->Some_0.1 > 0,
        value_at(a, a[i].row as int)->Some_0.0 == a[i].value * value_at(a, a[i].row as int)->Some_0.1,
{
    let y = a[i].row as int;
    if i == 0 {
        lemma_first_segment(a, 0, y, 0);
    } else {
        assert forall|j: int| 0 <= j < i - 1 implies !covers(a, j, y) by {
            assert(a[j + 1].row < a[i].row);
        }
        lemma_first_segment(a, 0, y, i - 1);
        let d = a[i].row - a[i - 1].row;
        assert(a[i - 1].value * d + (a[i].value - a[i - 1].value) * d == a[i].value * d)
            by (nonlinear_arith);
    }
}

/// Where anchor values never increase, interpolated values never increase
/// from one row to a later one.
pub proof fn values_non_increasing_down_rows(a: Seq<Anchor>, y1: int, y2: int)
    requires
        anchors_ascending(a),
        values_non_increasing(a),
        y1 <= y2,
        value_at(a, y1) is Some,
        value_at(a, y2) is Some,
    ensures
        value_at(a, y2)->Some_0.0 * value_at(a, y1)->Some_0.1
            <= value_at(a, y1)->Some_0.0 * value_at(a, y2)->Some_0.1,
{
    let k1 = segment_of(a, 0, y1);
    let k2 = segment_of(a, 0, y2);
    if k2 < k1 {
        assert(covers(a, k2, y1));
    }
    let (n1, d1) = interp_value(a[k1], a[k1 + 1], y1);
    let (n2, d2) = interp_value(a[k2], a[k2 + 1], y2);
    if k1 == k2 {
        let p = a[k1];
        let q = a[k1 + 1];
        assert((q.value - p.value) * (y2 - p.row) <= (q.value - p.value) * (y1 - p.row))
            by (nonlinear_arith)
            requires
                q.value <= p.value,
                p.row <= y1 <= y2,
        ;
        assert(n2 <= n1);
        assert(n2 * d1 <= n1 * d2) by (nonlinear_arith)
            requires
                n2 <= n1,
                d1 == d2,
                d1 > 0,
        ;
    } else {
        let p1 = a[k1];
        let q1 = a[k1 + 1];
        let p2 = a[k2];
        let q2 = a[k2 + 1];
        assert(n1 >= q1.value * d1) by (nonlinear_arith)
            requires
                n1 == p1.value * d1 + (q1.value - p1.value) * (y1 - p1.row),
                d1 == q1.row - p1.row,
                p1.row <= y1 <= q1.row,
                q1.value <= p1.value,
        ;
        assert(n2 <= p2.value * d2) by (nonlinear_arith)
            requires
                n2 == p2.value * d2 + (q2.value - p2.value) * (y2 - p2.row),
                p2.row <= y2,
                q2.value <= p2.value,
        ;
        assert(p2.value <= q1.value);
        assert(n2 * d1 <= n1 * d2) by (nonlinear_arith)
            requires
                n1 >= q1.value * d1,
                n2 <= p2.value * d2,
                p2.value <= q1.value,
                d1 > 0,
                d2 > 0,
        ;
    }
}

/// Where anchor values never increase, every interpolated value lies between
/// the last anchor's value and the first's.
pub proof fn value_between_end_values(a: Seq<Anchor>, y: int)
    requires
        anchors_ascending(a),
        values_non_increasing(a),
        value_at(a, y) is Some,
    ensures
        value_at(a, y)->Some_0.1 > 0,
        a[a.len() - 1].value * value_at(a, y)->Some_0.1 <= value_at(a, y)->Some_0.0,
        value_at(a, y)->Some_0.0 <= a[0].value * value_at(a, y)->Some_0.1,
{
    let k = segment_of(a, 0, y);
    let p = a[k];
    let q = a[k + 1];
    let (n, d) = interp_value(p, q, y);
    let lo = a[a.len() - 1].value;
    let hi = a[0].value;
    assert(lo <= q.value);
    assert(p.value <= hi);
    assert(lo * d <= n <= hi * d) by (nonlinear_arith)
        requires
            n == p.value * d + (q.value - p.value) * (y - p.row),
            d == q.row - p.row,
            p.row <= y <= q.row,
            lo <= q.value <= p.value <= hi,
    ;
}

/// Over the usual legend's scan rows, every row has a value, and every value
/// lies between 0.0 and 50.0 (0 and 500 tenths).
pub proof fn standard_table_full(t: Seq<(u32, Ratio)>, y: u32)
    requires
        is_value_table(t, standard_anchors(), 7, 472),
        7 <= y <= 472,
    ensures
        has_row(t, y as int),
        value_at(standard_anchors(), y as int) is Some,
        0 <= value_at(standard_anchors(), y as int)->Some_0.0,
        value_at(standard_anchors(), y as int)->Some_0.0 <= 500 * value_at(standard_anchors(), y as int)->Some_0.1,
{
    let a = standard_anchors();
    assert(anchors_ascending(a));
    assert(values_non_increasing(a));
    value_table_rows(t, a, 7, 472, y);
    value_iff_within_anchors(a, y as int);
    value_between_end_values(a, y as int);
}

proof fn lemma_row_at(t: Seq<(u32, Ratio)>, first: int, last: int, k: int)
    requires
        rows_ascending(t),
        forall|i: int| 0 <= i < t.len() ==> first <= #[trigger] t[i].0 <= last,
        forall|y: int| first <= y <= last ==> #[trigger] has_row(t, y),
        0 <= k < t.len(),
    ensures
        t[k].0 == first + k,
    decreases k,
{
    if k == 0 {
        assert(has_row(t, first));
        let j = choose|j: int| 0 <= j < t.len() && t[j].0 == first;
        if j > 0 {
            assert(t[0].0 < t[j].0);
        }
    } else {
        lemma_row_at(t, first, last, k - 1);
        assert(t[k - 1].0 < t[k].0);
        if t[k].0 > first + k {
            let y = first + k;
            assert(has_row(t, y));
            let j = choose|j: int| 0 <= j < t.len() && t[j].0 == y;
            if j < k - 1 {
                assert(t[j].0 < t[k - 1].0);
            } else if j > k {
                assert(t[k].0 < t[j].0);
            }
        }
    }
}

/// A table whose rows ascend, lie in `first..=last` and cover every row of
/// that range has one entry per row, in order.
pub proof fn full_table_size(t: Seq<(u32, Ratio)>, first: int, last: int)
    requires
        first <= last,
        rows_ascending(t),
        forall|i: int| 0 <= i < t.len() ==> first <= #[trigger] t[i].0 <= last,
        forall|y: int| first <= y <= last ==> #[trigger] has_row(t, y),
    ensures
        t.len() == last - first + 1,
        forall|k: int| 0 <= k < t.len() ==> #[trigger] t[k].0 == first + k,
{
    assert forall|k: int| 0 <= k < t.len() implies #[trigger] t[k].0 == first + k by {
        lemma_row_at(t, first, last, k);
    }
    assert(has_row(t, last));
    let j = choose|j: int| 0 <= j < t.len() && t[j].0 == last;
    assert(t[t.len() - 1].0 == first + t.len() - 1);
}

/// The usual legend's value table has exactly the 466 rows 7 to 472, in order.
pub proof fn standard_table_size(t: Seq<(u32, Ratio)>)
    requires
        is_value_table(t, standard_anchors(), 7, 472),
    ensures
        t.len() == 466,
        forall|k: int| 0 <= k < t.len() ==> #[trigger] t[k].0 == 7 + k,
{
    assert forall|y: int| 7 <= y <= 472 implies #[trigger] has_row(t, y) by {
        standard_table_full(t, y as u32);
    }
    assert forall|i: int| 0 <= i < t.len() implies 7 <= #[trigger] t[i].0 <= 472 by {}
    full_table_size(t, 7, 472);
}

} // verus!
