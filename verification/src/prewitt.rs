use vstd::prelude::*;
use crate::color::{Rgb8, Rgba8};
use crate::image::{Image, Triple, clamp, lemma_index_in_bounds};

verus! {

/// Luminance-like brightness of a pixel, as used by the edge detector.
pub trait ToGray {
    spec fn spec_gray(self) -> i16;

    fn to_gray(self) -> (g: i16)
        ensures
            g == self.spec_gray(),
    ;
}

impl ToGray for Rgb8 {
    /// `r + 2g + b`.
    open spec fn spec_gray(self) -> i16 {
        (self.r + self.g + self.g + self.b) as i16
    }

    fn to_gray(self) -> (g: i16) {
        let r = self.r as i16;
        let g = self.g as i16;
        let b = self.b as i16;
        r + g + g + b
    }
}

impl ToGray for Rgba8 {
    /// The gray value of the color channels; alpha is ignored.
    open spec fn spec_gray(self) -> i16 {
        (Rgb8 { r: self.r, g: self.g, b: self.b }).spec_gray()
    }

    fn to_gray(self) -> (g: i16) {
        self.rgb().to_gray()
    }
}

/// Horizontal gradient of a 3x3 neighbourhood.
pub open spec fn prewitt_gx(
    top_prev: int, top_next: int, mid_prev: int, mid_next: int, bot_prev: int, bot_next: int,
) -> int {
    top_next - top_prev + mid_next - mid_prev + bot_next - bot_prev
}

/// Vertical gradient of a 3x3 neighbourhood.
pub open spec fn prewitt_gy(
    top_prev: int, top_curr: int, top_next: int, bot_prev: int, bot_curr: int, bot_next: int,
) -> int {
    bot_prev + bot_curr + bot_next - top_prev - top_curr - top_next
}

pub open spec fn fits_i16(v: int) -> bool {
    i16::MIN <= v <= i16::MAX
}

/// Every partial sum of the gradients fits in `i16`, and the squared
/// magnitude fits in `i32`, when evaluated left to right.
pub open spec fn prewitt_fits(
    top_prev: i16, top_curr: i16, top_next: i16, mid_prev: i16, mid_next: i16,
    bot_prev: i16, bot_curr: i16, bot_next: i16,
) -> bool {
    let gx = prewitt_gx(top_prev as int, top_next as int, mid_prev as int, mid_next as int, bot_prev as int, bot_next as int);
    let gy = prewitt_gy(top_prev as int, top_curr as int, top_next as int, bot_prev as int, bot_curr as int, bot_next as int);
    &&& fits_i16(top_next - top_prev)
    &&& fits_i16(top_next - top_prev + mid_next)
    &&& fits_i16(top_next - top_prev + mid_next - mid_prev)
    &&& fits_i16(top_next - top_prev + mid_next - mid_prev + bot_next)
    &&& fits_i16(gx)
    &&& fits_i16(bot_prev + bot_curr)
    &&& fits_i16(bot_prev + bot_curr + bot_next)
    &&& fits_i16(bot_prev + bot_curr + bot_next - top_prev)
    &&& fits_i16(bot_prev + bot_curr + bot_next - top_prev - top_curr)
    &&& fits_i16(gy)
    &&& gx * gx + gy * gy <= i32::MAX
}

/// Squared gradient magnitude divided by 256, truncated to 16 bits.
pub open spec fn prewitt_value(
    top_prev: i16, top_curr: i16, top_next: i16, mid_prev: i16, mid_next: i16,
    bot_prev: i16, bot_curr: i16, bot_next: i16,
) -> u16 {
    let gx = prewitt_gx(top_prev as int, top_next as int, mid_prev as int, mid_next as int, bot_prev as int, bot_next as int);
    let gy = prewitt_gy(top_prev as int, top_curr as int, top_next as int, bot_prev as int, bot_curr as int, bot_next as int);
    ((gx * gx + gy * gy) / 256) as u16
}

pub open spec fn prewitt_fits3(top: Triple<i16>, mid: Triple<i16>, bot: Triple<i16>) -> bool {
    prewitt_fits(top.prev, top.curr, top.next, mid.prev, mid.next, bot.prev, bot.curr, bot.next)
}

pub open spec fn prewitt_value3(top: Triple<i16>, mid: Triple<i16>, bot: Triple<i16>) -> u16 {
    prewitt_value(top.prev, top.curr, top.next, mid.prev, mid.next, bot.prev, bot.curr, bot.next)
}

/// Values in `0..=1020` (the range of `ToGray` on colors) never overflow.
pub proof fn lemma_prewitt_fits_gray_range(
    top_prev: i16, top_curr: i16, top_next: i16, mid_prev: i16, mid_next: i16,
    bot_prev: i16, bot_curr: i16, bot_next: i16,
)
    requires
        0 <= top_prev <= 1020, 0 <= top_curr <= 1020, 0 <= top_next <= 1020,
        0 <= mid_prev <= 1020, 0 <= mid_next <= 1020,
        0 <= bot_prev <= 1020, 0 <= bot_curr <= 1020, 0 <= bot_next <= 1020,
    ensures
        prewitt_fits(top_prev, top_curr, top_next, mid_prev, mid_next, bot_prev, bot_curr, bot_next),
{
    let gx = prewitt_gx(top_prev as int, top_next as int, mid_prev as int, mid_next as int, bot_prev as int, bot_next as int);
    let gy = prewitt_gy(top_prev as int, top_curr as int, top_next as int, bot_prev as int, bot_curr as int, bot_next as int);
    assert(gx * gx + gy * gy <= 18727200) by (nonlinear_arith)
        requires
            -3060 <= gx <= 3060,
            -3060 <= gy <= 3060,
    ;
}

/// Squared Prewitt gradient magnitude of a 3x3 neighbourhood, divided by 256.
pub fn prewitt_squared(
    top_prev: i16, top_curr: i16, top_next: i16, mid_prev: i16, mid_next: i16,
    bot_prev: i16, bot_curr: i16, bot_next: i16,
) -> (v: u16)
    requires
        prewitt_fits(top_prev, top_curr, top_next, mid_prev, mid_next, bot_prev, bot_curr, bot_next),
    ensures
        v == prewitt_value(top_prev, top_curr, top_next, mid_prev, mid_next, bot_prev, bot_curr, bot_next),
{
    let gx16: i16 = top_next - top_prev + mid_next - mid_prev + bot_next - bot_prev;
    let gy16: i16 = bot_prev + bot_curr + bot_next - top_prev - top_curr - top_next;
    let gx = gx16 as i32;
    let gy = gy16 as i32;
    assert(0 <= gx * gx && 0 <= gy * gy) by (nonlinear_arith);
    assert(gx * gx <= 1073741824 && gy * gy <= 1073741824) by (nonlinear_arith)
        requires
            -32768 <= gx <= 32767,
            -32768 <= gy <= 32767,
    ;
    ((gx * gx + gy * gy) / 256) as u16
}

/// `prewitt_squared` on three rows of a neighbourhood.
pub fn prewitt_squared3(top: Triple<i16>, mid: Triple<i16>, bot: Triple<i16>) -> (v: u16)
    requires
        prewitt_fits3(top, mid, bot),
    ensures
        v == prewitt_value3(top, mid, bot),
{
    prewitt_squared(top.prev, top.curr, top.next, mid.prev, mid.next, bot.prev, bot.curr, bot.next)
}

/// The gray value of the pixel at `(x, y)` clamped to the image.
pub open spec fn gray_at<T: ToGray>(img: &Image<T>, x: int, y: int) -> i16 {
    img.at_clamped(x, y).spec_gray()
}

/// No neighbourhood of the image overflows the gradient arithmetic.
pub open spec fn gray_fits<T: ToGray>(img: &Image<T>) -> bool {
    forall|x: int, y: int|
        0 <= x < img.w() && 0 <= y < img.h() ==> #[trigger] prewitt_fits(
            gray_at(img, x - 1, y - 1), gray_at(img, x, y - 1), gray_at(img, x + 1, y - 1),
            gray_at(img, x - 1, y), gray_at(img, x + 1, y),
            gray_at(img, x - 1, y + 1), gray_at(img, x, y + 1), gray_at(img, x + 1, y + 1),
        )
}

/// The edge strength at `(x, y)`, with the image edges extended outwards.
pub open spec fn prewitt_at<T: ToGray>(img: &Image<T>, x: int, y: int) -> u16 {
    prewitt_value(
        gray_at(img, x - 1, y - 1), gray_at(img, x, y - 1), gray_at(img, x + 1, y - 1),
        gray_at(img, x - 1, y), gray_at(img, x + 1, y),
        gray_at(img, x - 1, y + 1), gray_at(img, x, y + 1), gray_at(img, x + 1, y + 1),
    )
}

/// Images of colors never overflow the gradient arithmetic.
pub proof fn lemma_rgb_gray_fits(img: &Image<Rgb8>)
    ensures
        gray_fits(img),
{
    assert forall|x: int, y: int| 0 <= x < img.w() && 0 <= y < img.h() implies #[trigger] prewitt_fits(
        gray_at(img, x - 1, y - 1), gray_at(img, x, y - 1), gray_at(img, x + 1, y - 1),
        gray_at(img, x - 1, y), gray_at(img, x + 1, y),
        gray_at(img, x - 1, y + 1), gray_at(img, x, y + 1), gray_at(img, x + 1, y + 1),
    ) by {
        lemma_prewitt_fits_gray_range(
            gray_at(img, x - 1, y - 1), gray_at(img, x, y - 1), gray_at(img, x + 1, y - 1),
            gray_at(img, x - 1, y), gray_at(img, x + 1, y),
            gray_at(img, x - 1, y + 1), gray_at(img, x, y + 1), gray_at(img, x + 1, y + 1),
        );
    }
}

/// The image of squared edge strengths (see `prewitt_at`) of an image.
pub fn prewitt_squared_img<T: ToGray + Copy>(input: &Image<T>) -> (out: Image<u16>)
    requires
        input.wf(),
        0 < input.w() <= u32::MAX,
        input.h() <= u32::MAX,
        gray_fits(input),
    ensures
        out.wf(),
        out.w() == input.w(),
        out.h() == input.h(),
        forall|x: int, y: int|
            0 <= x < input.w() && 0 <= y < input.h() ==> #[trigger] out.at(x, y) == prewitt_at(input, x, y),
{
    let w = input.width();
    let h = input.height();
    let pixels = input.buf();
    let n = pixels.len();
    let mut gray_buf: Vec<i16> = Vec::new();
    let mut i: usize = 0;
    while i < n
        invariant
            n == pixels@.len(),
            pixels@ == input.pixels(),
            gray_buf.len() == i,
            i <= n,
            forall|k: int| 0 <= k < i ==> #[trigger] gray_buf@[k] == pixels@[k].spec_gray(),
        decreases n - i,
    {
        gray_buf.push(pixels[i].to_gray());
        i += 1;
    }
    let gray = Image::new(gray_buf, w, h);
    let mut prew: Vec<u16> = Vec::new();
    if h > 0 {
        assert forall|x: int, y: int| #![auto] gray.at_clamped(x, y) == gray_at(input, x, y) by {
            lemma_index_in_bounds(clamp(x, w as int), clamp(y, h as int), w as int, h as int);
        }
        let mut y: usize = 0;
        while y < h
            invariant
                gray.wf(),
                gray.w() == w,
                gray.h() == h,
                0 < w,
                0 < h,
                y <= h,
                w == input.w(),
                h == input.h(),
                gray_fits(input),
                forall|x: int, y: int| #![auto] gray.at_clamped(x, y) == gray_at(input, x, y),
                prew.len() == y * w,
                forall|i: int, j: int|
                    0 <= i < w && 0 <= j < y ==> #[trigger] prew@[j * w + i] == prewitt_at(input, i, j),
            decreases h - y,
        {
            let mut x: usize = 0;
            while x < w
                invariant
                    gray.wf(),
                    gray.w() == w,
                    gray.h() == h,
                    0 < w,
                    y < h,
                    x <= w,
                    w == input.w(),
                    h == input.h(),
                    gray_fits(input),
                    forall|x: int, y: int| #![auto] gray.at_clamped(x, y) == gray_at(input, x, y),
                    prew.len() == y * w + x,
                    forall|i: int, j: int|
                        0 <= i < w && 0 <= j < y ==> #[trigger] prew@[j * w + i] == prewitt_at(input, i, j),
                    forall|i: int| 0 <= i < x ==> #[trigger] prew@[y * w + i] == prewitt_at(input, i, y as int),
                decreases w - x,
            {
                let (top, mid, bot) = gray.neighbours(0, x, y);
                assert(gray.at_clamped(x - 1, Image::<i16>::row_above(0, y as int)) == gray_at(input, x - 1, y - 1));
                assert(gray.at_clamped(x as int, Image::<i16>::row_above(0, y as int)) == gray_at(input, x as int, y - 1));
                assert(gray.at_clamped(x + 1, Image::<i16>::row_above(0, y as int)) == gray_at(input, x + 1, y - 1));
                assert(prewitt_fits(
                    gray_at(input, x - 1, y - 1), gray_at(input, x as int, y - 1), gray_at(input, x + 1, y - 1),
                    gray_at(input, x - 1, y as int), gray_at(input, x + 1, y as int),
                    gray_at(input, x - 1, y + 1), gray_at(input, x as int, y + 1), gray_at(input, x + 1, y + 1),
                ));
                let v = prewitt_squared3(top, mid, bot);
                let ghost before = prew@;
                prew.push(v);
                proof {
                    assert forall|i: int, j: int|
                        0 <= i < w && 0 <= j < y implies #[trigger] prew@[j * w + i] == prewitt_at(input, i, j) by {
                        lemma_index_in_bounds(i, j, w as int, y as int);
                        assert(prew@[j * w + i] == before[j * w + i]);
                    }
                }
                x += 1;
            }
            proof {
                assert forall|i: int, j: int|
                    0 <= i < w && 0 <= j < y + 1 implies #[trigger] prew@[j * w + i] == prewitt_at(input, i, j) by {
                    if j == y {
                    }
                }
                assert((y + 1) * w == y * w + w) by (nonlinear_arith);
            }
            y += 1;
        }
    }
    assert(h * w == w * h) by (nonlinear_arith);
    Image::new(prew, w, h)
}

/// A neighbourhood of one gray value has no edge.
pub proof fn lemma_prewitt_flat(v: i16)
    ensures
        prewitt_value(v, v, v, v, v, v, v, v) == 0,
{
    let gx = prewitt_gx(v as int, v as int, v as int, v as int, v as int, v as int);
    let gy = prewitt_gy(v as int, v as int, v as int, v as int, v as int, v as int);
    assert(gx == 0 && gy == 0);
    assert(gx * gx + gy * gy == 0);
}

/// Adding the same amount to every gray value does not change the edge strength.
pub proof fn lemma_prewitt_shift_invariant(
    top_prev: i16, top_curr: i16, top_next: i16, mid_prev: i16, mid_next: i16,
    bot_prev: i16, bot_curr: i16, bot_next: i16, d: int,
)
    requires
        fits_i16(top_prev + d), fits_i16(top_curr + d), fits_i16(top_next + d),
        fits_i16(mid_prev + d), fits_i16(mid_next + d),
        fits_i16(bot_prev + d), fits_i16(bot_curr + d), fits_i16(bot_next + d),
    ensures
        prewitt_value(
            (top_prev + d) as i16, (top_curr + d) as i16, (top_next + d) as i16,
            (mid_prev + d) as i16, (mid_next + d) as i16,
            (bot_prev + d) as i16, (bot_curr + d) as i16, (bot_next + d) as i16,
        ) == prewitt_value(top_prev, top_curr, top_next, mid_prev, mid_next, bot_prev, bot_curr, bot_next),
{
}

/// Mirroring a neighbourhood left to right, or top to bottom, leaves its edge
/// strength unchanged: the measure depends on the squares of the two gradients.
pub proof fn lemma_prewitt_mirror_symmetric(
    top_prev: i16, top_curr: i16, top_next: i16, mid_prev: i16, mid_next: i16,
    bot_prev: i16, bot_curr: i16, bot_next: i16,
)
    ensures
        prewitt_value(top_next, top_curr, top_prev, mid_next, mid_prev, bot_next, bot_curr, bot_prev)
            == prewitt_value(top_prev, top_curr, top_next, mid_prev, mid_next, bot_prev, bot_curr, bot_next),
        prewitt_value(bot_prev, bot_curr, bot_next, mid_prev, mid_next, top_prev, top_curr, top_next)
            == prewitt_value(top_prev, top_curr, top_next, mid_prev, mid_next, bot_prev, bot_curr, bot_next),
{
    let gx = top_next - top_prev + mid_next - mid_prev + bot_next - bot_prev;
    let gy = bot_prev + bot_curr + bot_next - top_prev - top_curr - top_next;
    assert((-gx) * (-gx) == gx * gx) by (nonlinear_arith);
    assert((-gy) * (-gy) == gy * gy) by (nonlinear_arith);
}

/// Without 16-bit truncation, the edge strength is zero exactly when both gradients
/// `gx` (right column minus left column) and `gy` (bottom row minus top row) are so
/// small that `gx * gx + gy * gy < 256`; in particular it is positive once either
/// gradient reaches 16 in magnitude.
pub proof fn lemma_prewitt_zero_iff_small(
    top_prev: i16, top_curr: i16, top_next: i16, mid_prev: i16, mid_next: i16,
    bot_prev: i16, bot_curr: i16, bot_next: i16,
)
    requires
        ({
            let gx = top_next - top_prev + mid_next - mid_prev + bot_next - bot_prev;
            let gy = bot_prev + bot_curr + bot_next - top_prev - top_curr - top_next;
            gx * gx + gy * gy < 256 * 65536
        }),
    ensures
        ({
            let gx = top_next - top_prev + mid_next - mid_prev + bot_next - bot_prev;
            let gy = bot_prev + bot_curr + bot_next - top_prev - top_curr - top_next;
            &&& prewitt_value(top_prev, top_curr, top_next, mid_prev, mid_next, bot_prev, bot_curr, bot_next) as int
                == (gx * gx + gy * gy) / 256
            &&& prewitt_value(top_prev, top_curr, top_next, mid_prev, mid_next, bot_prev, bot_curr, bot_next) == 0
                <==> gx * gx + gy * gy < 256
            &&& (gx >= 16 || gx <= -16 || gy >= 16 || gy <= -16) ==> prewitt_value(
                top_prev, top_curr, top_next, mid_prev, mid_next, bot_prev, bot_curr, bot_next) > 0
        }),
{
    let gx = top_next - top_prev + mid_next - mid_prev + bot_next - bot_prev;
    let gy = bot_prev + bot_curr + bot_next - top_prev - top_curr - top_next;
    let q = gx * gx + gy * gy;
    assert(q >= 0) by (nonlinear_arith)
        requires
            q == gx * gx + gy * gy,
    ;
    assert((gx >= 16 || gx <= -16 || gy >= 16 || gy <= -16) ==> q >= 256) by (nonlinear_arith)
        requires
            q == gx * gx + gy * gy,
    ;
    assert(0 <= q / 256 < 65536);
}

} // verus!
