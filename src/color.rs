use vstd::prelude::*;

verus! {

/// An opaque colour with three 8-bit channels.
#[derive(Clone, Copy, Debug, PartialEq, Eq, Structural)]
pub struct Rgb {
    pub r: u8,
    pub g: u8,
    pub b: u8,
}

/// A colour with an 8-bit opacity channel.
#[derive(Clone, Copy, Debug, PartialEq, Eq, Structural)]
pub struct Rgba {
    pub r: u8,
    pub g: u8,
    pub b: u8,
    pub a: u8,
}

/// Square of the difference of two channel values.
pub open spec fn channel_gap(x: u8, y: u8) -> int {
    (x as int - y as int) * (x as int - y as int)
}

/// Squared Euclidean distance between two colours in RGB space.
pub open spec fn distance(c: Rgb, d: Rgb) -> int {
    channel_gap(c.r, d.r) + channel_gap(c.g, d.g) + channel_gap(c.b, d.b)
}

fn channel_gap_exec(x: u8, y: u8) -> (r: u32)
    ensures
        r as int == channel_gap(x, y),
        r <= 65025,
{
    let d: u32 = if x >= y { (x - y) as u32 } else { (y - x) as u32 };
    assert(d * d == channel_gap(x, y)) by (nonlinear_arith)
        requires
            d as int == x as int - y as int || d as int == y as int - x as int,
    ;
    assert(d * d <= 65025) by (nonlinear_arith)
        requires
            d <= 255,
    ;
    d * d
}

/// Squared RGB distance between `c` and `d`.
pub fn color_distance(c: Rgb, d: Rgb) -> (r: u32)
    ensures
        r as int == distance(c, d),
{
    channel_gap_exec(c.r, d.r) + channel_gap_exec(c.g, d.g) + channel_gap_exec(c.b, d.b)
}

} // verus!
