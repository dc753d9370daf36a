use vstd::prelude::*;

verus! {

/// A color with 8 bits per channel.
#[derive(Clone, Copy, Debug, PartialEq, Eq, Structural)]
pub struct Rgb8 {
    pub r: u8,
    pub g: u8,
    pub b: u8,
}

/// An 8-bit-per-channel color with an alpha channel.
#[derive(Clone, Copy, Debug, PartialEq, Eq, Structural)]
pub struct Rgba8 {
    pub r: u8,
    pub g: u8,
    pub b: u8,
    pub a: u8,
}

/// Channel sums of a weighted blend of colors.
#[derive(Clone, Copy, Debug, PartialEq, Eq, Structural)]
pub struct Rgb32 {
    pub r: u32,
    pub g: u32,
    pub b: u32,
}

impl Rgb8 {
    pub fn new(r: u8, g: u8, b: u8) -> (c: Rgb8)
        ensures
            c == (Rgb8 { r, g, b }),
    {
        Rgb8 { r, g, b }
    }
}

impl Rgba8 {
    pub fn new(r: u8, g: u8, b: u8, a: u8) -> (c: Rgba8)
        ensures
            c == (Rgba8 { r, g, b, a }),
    {
        Rgba8 { r, g, b, a }
    }

    /// The color without its alpha channel.
    pub fn rgb(self) -> (c: Rgb8)
        ensures
            c == (Rgb8 { r: self.r, g: self.g, b: self.b }),
    {
        Rgb8 { r: self.r, g: self.g, b: self.b }
    }
}

pub open spec fn sq_diff(a: u8, b: u8) -> int {
    (a - b) * (a - b)
}

/// Squared Euclidean distance between two colors.
pub open spec fn color_distance(p1: Rgb8, p2: Rgb8) -> int {
    sq_diff(p1.r, p2.r) + sq_diff(p1.g, p2.g) + sq_diff(p1.b, p2.b)
}

/// Per-channel midpoint of two colors, rounded down.
pub open spec fn midpoint(p1: Rgb8, p2: Rgb8) -> Rgb8 {
    Rgb8 {
        r: ((p1.r + p2.r) / 2) as u8,
        g: ((p1.g + p2.g) / 2) as u8,
        b: ((p1.b + p2.b) / 2) as u8,
    }
}

proof fn lemma_sq_diff_bounds(a: u8, b: u8)
    ensures
        0 <= sq_diff(a, b) <= 65025,
{
    let d: int = a - b;
    assert(0 <= d * d <= 65025) by (nonlinear_arith)
        requires
            -255 <= d <= 255,
    ;
}

/// The squared distance of two colors is at most three times 255 squared.
pub proof fn lemma_color_distance_bounds(p1: Rgb8, p2: Rgb8)
    ensures
        0 <= color_distance(p1, p2) <= 195075,
{
    lemma_sq_diff_bounds(p1.r, p2.r);
    lemma_sq_diff_bounds(p1.g, p2.g);
    lemma_sq_diff_bounds(p1.b, p2.b);
}

/// Squared Euclidean distance between two colors.
pub fn diff(p1: Rgb8, p2: Rgb8) -> (d: u32)
    ensures
        d == color_distance(p1, p2),
{
    proof {
        lemma_color_distance_bounds(p1, p2);
    }
    let dr: i32 = p1.r as i32 - p2.r as i32;
    let dg: i32 = p1.g as i32 - p2.g as i32;
    let db: i32 = p1.b as i32 - p2.b as i32;
    assert(0 <= dr * dr <= 65025 && 0 <= dg * dg <= 65025 && 0 <= db * db <= 65025) by (nonlinear_arith)
        requires
            -255 <= dr <= 255,
            -255 <= dg <= 255,
            -255 <= db <= 255,
    ;
    (dr * dr + dg * dg + db * db) as u32
}

/// Per-channel midpoint of two colors, rounded down.
pub fn average(p1: Rgb8, p2: Rgb8) -> (m: Rgb8)
    ensures
        m == midpoint(p1, p2),
{
    Rgb8 {
        r: ((p1.r as u16 + p2.r as u16) / 2) as u8,
        g: ((p1.g as u16 + p2.g as u16) / 2) as u8,
        b: ((p1.b as u16 + p2.b as u16) / 2) as u8,
    }
}

/// The distance of two colors does not depend on their order, and is zero exactly
/// for equal colors.
pub proof fn lemma_color_distance_symmetric_zero(p1: Rgb8, p2: Rgb8)
    ensures
        color_distance(p1, p2) == color_distance(p2, p1),
        color_distance(p1, p2) == 0 <==> p1 == p2,
{
    lemma_sq_diff_bounds(p1.r, p2.r);
    lemma_sq_diff_bounds(p1.g, p2.g);
    lemma_sq_diff_bounds(p1.b, p2.b);
    assert(sq_diff(p1.r, p2.r) == sq_diff(p2.r, p1.r)) by (nonlinear_arith);
    assert(sq_diff(p1.g, p2.g) == sq_diff(p2.g, p1.g)) by (nonlinear_arith);
    assert(sq_diff(p1.b, p2.b) == sq_diff(p2.b, p1.b)) by (nonlinear_arith);
    assert(sq_diff(p1.r, p2.r) == 0 ==> p1.r == p2.r) by (nonlinear_arith);
    assert(sq_diff(p1.g, p2.g) == 0 ==> p1.g == p2.g) by (nonlinear_arith);
    assert(sq_diff(p1.b, p2.b) == 0 ==> p1.b == p2.b) by (nonlinear_arith);
    if color_distance(p1, p2) == 0 {
        assert(p1.r == p2.r && p1.g == p2.g && p1.b == p2.b);
    }
    if p1 == p2 {
        assert(sq_diff(p1.r, p2.r) == 0) by (nonlinear_arith)
            requires
                p1.r == p2.r,
        ;
        assert(sq_diff(p1.g, p2.g) == 0) by (nonlinear_arith)
            requires
                p1.g == p2.g,
        ;
        assert(sq_diff(p1.b, p2.b) == 0) by (nonlinear_arith)
            requires
                p1.b == p2.b,
        ;
    }
}

} // verus!
