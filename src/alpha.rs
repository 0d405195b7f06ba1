use vstd::prelude::*;

verus! {

/// An exact fraction `num / den` with a positive denominator.
#[derive(Clone, Copy, Debug, PartialEq, Eq, Structural)]
pub struct Ratio {
    pub num: i128,
    pub den: u32,
}

impl Ratio {
    pub open spec fn wf(self) -> bool {
        self.den > 0
    }

    /// `self <= other` as rational numbers.
    pub open spec fn le(self, other: Ratio) -> bool {
        self.num * other.den <= other.num * self.den
    }

    /// The fraction `n / 1`.
    pub fn whole(n: i64) -> (r: Ratio)
        ensures
            r.wf(),
            r.num == n as int,
            r.den == 1,
    {
        Ratio { num: n as i128, den: 1 }
    }
}

/// Opacity for `v` on a linear ramp that reaches full opacity at `saturation`:
/// zero for values at or below zero, `floor(255 * v / saturation)` below the
/// saturation point, and 255 from there on.
pub open spec fn alpha_of(v: Ratio, saturation: u32) -> int {
    if v.num <= 0 {
        0
    } else if v.num >= saturation as int * v.den as int {
        255
    } else {
        (255 * v.num) / (saturation as int * v.den as int)
    }
}

/// Maps a value to an opacity, rounding down.
pub fn alpha(v: Ratio, saturation: u32) -> (r: u8)
    requires
        v.wf(),
        saturation > 0,
    ensures
        r as int == alpha_of(v, saturation),
{
    if v.num <= 0 {
        0
    } else {
        assert(saturation as u64 * v.den as u64 <= u64::MAX) by (nonlinear_arith)
            requires
                saturation <= u32::MAX,
                v.den <= u32::MAX,
        ;
        let limit: u64 = saturation as u64 * v.den as u64;
        if v.num >= limit as i128 {
            255
        } else {
            let n: u128 = v.num as u128;
            proof {
                assert(255 * n < 255 * (limit as int)) by (nonlinear_arith)
                    requires
                        n < limit,
                ;
                assert((255 * n) / (limit as int) < 255) by (nonlinear_arith)
                    requires
                        255 * n < 255 * (limit as int),
                        limit > 0,
                ;
            }
            ((255 * n) / (limit as u128)) as u8
        }
    }
}

proof fn lemma_cancel(x: int, m: int, k: int)
    requires
        x >= 0,
        m > 0,
        k > 0,
    ensures
        (k * x) / (k * m) == x / m,
{
    vstd::arithmetic::div_mod::lemma_div_denominator(k * x, k, m);
    vstd::arithmetic::div_mod::lemma_div_multiples_vanish(x, k);
}

proof fn alpha_range(v: Ratio, saturation: u32)
    requires
        v.wf(),
        saturation > 0,
    ensures
        0 <= alpha_of(v, saturation) <= 255,
{
    let s = saturation as int;
    let a = v.num as int;
    let b = v.den as int;
    if a > 0 && a < s * b {
        assert(0 <= (255 * a) / (s * b) < 255) by (nonlinear_arith)
            requires
                0 < a < s * b,
                s > 0,
                b > 0,
        ;
    }
}

/// The opacity never decreases as the value grows.
pub proof fn alpha_monotonic(v: Ratio, w: Ratio, saturation: u32)
    requires
        v.wf(),
        w.wf(),
        saturation > 0,
        v.le(w),
    ensures
        alpha_of(v, saturation) <= alpha_of(w, saturation),
        0 <= alpha_of(v, saturation) <= 255,
{
    alpha_range(v, saturation);
    alpha_range(w, saturation);
    let s = saturation as int;
    let a = v.num as int;
    let b = v.den as int;
    let c = w.num as int;
    let d = w.den as int;
    if a > 0 && a < s * b {
        if c > 0 && c < s * d {
            assert(d * (255 * a) <= b * (255 * c)) by (nonlinear_arith)
                requires
                    a * d <= c * b,
            ;
            assert(d * (s * b) == b * (s * d)) by (nonlinear_arith);
            assert(s * b * d > 0) by (nonlinear_arith)
                requires
                    s > 0,
                    b > 0,
                    d > 0,
            ;
            vstd::arithmetic::div_mod::lemma_div_is_ordered(d * (255 * a), b * (255 * c), d * (s * b));
            lemma_cancel(255 * a, s * b, d);
            lemma_cancel(255 * c, s * d, b);
            assert((b * (255 * c)) / (d * (s * b)) == (b * (255 * c)) / (b * (s * d)));
        } else if c <= 0 {
            assert(a * d <= c * b);
            assert(false) by (nonlinear_arith)
                requires
                    a * d <= c * b,
                    c <= 0,
                    a > 0,
                    b > 0,
                    d > 0,
            ;
        }
    } else if a >= s * b {
        assert(c >= s * d && s * d > 0) by (nonlinear_arith)
            requires
                s > 0,
                a * d <= c * b,
                a >= s * b,
                b > 0,
                d > 0,
        ;
    }
}

} // verus!
