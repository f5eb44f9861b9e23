//! RGB colours, their luminance and the distance between two of them.

use vstd::prelude::*;

verus! {

/// An RGB triple with 8-bit channels.
#[derive(Clone, Copy, Debug, PartialEq, Eq, Structural)]
pub struct Color {
    pub r: u8,
    pub g: u8,
    pub b: u8,
}

/// The eight colours that palettes are drawn from.
#[derive(Clone, Copy, Debug, PartialEq, Eq, Structural)]
pub enum Named {
    White,
    Black,
    Red,
    Green,
    Blue,
    Yellow,
    Magenta,
    Cyan,
}

impl Named {
    /// The RGB value of a named colour.
    pub open spec fn rgb_value(self) -> Color {
        match self {
            Named::White => Color { r: 255, g: 255, b: 255 },
            Named::Black => Color { r: 0, g: 0, b: 0 },
            Named::Red => Color { r: 255, g: 0, b: 0 },
            Named::Green => Color { r: 0, g: 255, b: 0 },
            Named::Blue => Color { r: 0, g: 0, b: 255 },
            Named::Yellow => Color { r: 255, g: 255, b: 0 },
            Named::Magenta => Color { r: 255, g: 0, b: 255 },
            Named::Cyan => Color { r: 0, g: 255, b: 255 },
        }
    }

    #[verifier::when_used_as_spec(rgb_value)]
    pub fn rgb(self) -> (c: Color)
        ensures
            c == self.rgb_value(),
    {
        match self {
            Named::White => Color { r: 255, g: 255, b: 255 },
            Named::Black => Color { r: 0, g: 0, b: 0 },
            Named::Red => Color { r: 255, g: 0, b: 0 },
            Named::Green => Color { r: 0, g: 255, b: 0 },
            Named::Blue => Color { r: 0, g: 0, b: 255 },
            Named::Yellow => Color { r: 255, g: 255, b: 0 },
            Named::Magenta => Color { r: 255, g: 0, b: 255 },
            Named::Cyan => Color { r: 0, g: 255, b: 255 },
        }
    }
}

/// Pure white, the brighter of the two outputs of every binary mode.
pub open spec fn white() -> Color {
    Named::White.rgb()
}

/// Pure black, the darker of the two outputs of every binary mode.
pub open spec fn black() -> Color {
    Named::Black.rgb()
}

/// One unit of luminance, in the scale of `luminance_scaled`.
pub const LUMINANCE_UNIT: u32 = 10000;

/// The luminance above which the flat threshold turns a pixel white: 128.
pub const FLAT_THRESHOLD: u32 = 1280000;

/// Luminance 0.2126 R + 0.7152 G + 0.0722 B, in ten-thousandths.
pub open spec fn luminance_scaled(c: Color) -> int {
    2126 * c.r + 7152 * c.g + 722 * c.b
}

/// Squared Euclidean distance between two colours over the three channels.
pub open spec fn distance_squared(a: Color, b: Color) -> int {
    (a.r - b.r) * (a.r - b.r) + (a.g - b.g) * (a.g - b.g) + (a.b - b.b) * (a.b - b.b)
}

/// White where the luminance exceeds 128, black elsewhere.
pub open spec fn threshold_color(c: Color) -> Color {
    if luminance_scaled(c) > FLAT_THRESHOLD {
        white()
    } else {
        black()
    }
}

/// The luminance of `c` in ten-thousandths, between 0 and 2 550 000.
pub fn luminance(c: Color) -> (l: u32)
    ensures
        l == luminance_scaled(c),
        l <= 255 * LUMINANCE_UNIT,
{
    2126 * (c.r as u32) + 7152 * (c.g as u32) + 722 * (c.b as u32)
}

/// The luminance of `c` rounded down to a whole grey level.
pub fn luminance_level(c: Color) -> (g: u8)
    ensures
        g == luminance_scaled(c) / 10000,
{
    let l: u32 = luminance(c);
    (l / LUMINANCE_UNIT) as u8
}

fn channel_gap_squared(x: u8, y: u8) -> (d: u32)
    ensures
        d == (x - y) * (x - y),
        d <= 65025,
{
    let gap: u32 = if x >= y {
        (x - y) as u32
    } else {
        (y - x) as u32
    };
    assert(gap * gap <= 65025 && gap * gap == (x - y) * (x - y)) by (nonlinear_arith)
        requires
            gap <= 255,
            gap == x - y || gap == y - x,
    ;
    gap * gap
}

/// The squared Euclidean distance between `a` and `b`.
///
/// The distance itself is the square root of this number; ordering colours by
/// the square orders them by the distance.
pub fn color_distance_squared(a: Color, b: Color) -> (d: u32)
    ensures
        d == distance_squared(a, b),
        d <= 195075,
{
    channel_gap_squared(a.r, b.r) + channel_gap_squared(a.g, b.g) + channel_gap_squared(a.b, b.b)
}

/// Thresholds one colour to black or white by its luminance.
pub fn threshold_pixel(c: Color) -> (out: Color)
    ensures
        out == threshold_color(c),
{
    if luminance(c) > FLAT_THRESHOLD {
        Named::White.rgb()
    } else {
        Named::Black.rgb()
    }
}

/// Black and white are left as they are by the flat threshold, so a colour
/// thresholded twice is the colour thresholded once.
pub proof fn lemma_threshold_idempotent(c: Color)
    ensures
        threshold_color(white()) == white(),
        threshold_color(black()) == black(),
        threshold_color(threshold_color(c)) == threshold_color(c),
{
}

/// The distance between two colours does not depend on their order, and a
/// colour is at distance zero from itself.
pub proof fn lemma_distance_symmetric(a: Color, b: Color)
    ensures
        distance_squared(a, b) == distance_squared(b, a),
        distance_squared(a, a) == 0,
        distance_squared(a, b) >= 0,
{
    assert(distance_squared(a, b) == distance_squared(b, a) && distance_squared(a, b) >= 0)
        by (nonlinear_arith)
        requires
            distance_squared(a, b) == (a.r - b.r) * (a.r - b.r) + (a.g - b.g) * (a.g - b.g) + (
            a.b - b.b) * (a.b - b.b),
            distance_squared(b, a) == (b.r - a.r) * (b.r - a.r) + (b.g - a.g) * (b.g - a.g) + (
            b.b - a.b) * (b.b - a.b),
    ;
}

/// Two colours at distance zero are the same colour.
pub proof fn lemma_distance_zero_iff_equal(a: Color, b: Color)
    ensures
        distance_squared(a, b) == 0 <==> a == b,
{
    let dr = a.r - b.r;
    let dg = a.g - b.g;
    let db = a.b - b.b;
    assert(dr * dr >= 0 && dg * dg >= 0 && db * db >= 0) by (nonlinear_arith);
    assert(dr != 0 ==> dr * dr > 0) by (nonlinear_arith);
    assert(dg != 0 ==> dg * dg > 0) by (nonlinear_arith);
    assert(db != 0 ==> db * db > 0) by (nonlinear_arith);
}

} // verus!
