use vstd::prelude::*;
use crate::color::{Rgb8, midpoint};
use crate::image::{Image, Triple, clamp, lemma_index_in_bounds, lemma_index_injective};
use crate::palalpha::PixAlphaAble;
use crate::prewitt::{ToGray, prewitt_value, gray_at, prewitt_squared_img, lemma_rgb_gray_fits};
use crate::acc::{
    Similarity, Acc, Blend, blend_of, blend_color, add_model, valid_pair, initial_memo, cache_slot, memo_extends,
    lemma_compare_model_extends, lemma_memo_extends_trans, memo_facts, slot_value, edge_pair,
};
use crate::pal::{Pal, bytes_to_colors};

verus! {

/// Above this edge strength a pixel gets a heavier own weight.
pub const PREWITT_LOW_THRESHOLD: u16 = 160;

/// Above this edge strength a pixel is left as it is.
pub const PREWITT_HIGH_THRESHOLD: u16 = 256;

/// Own weight of a pixel near an edge.
pub const EDGE_CENTER_WEIGHT: u32 = 24;

/// Own weight of a pixel away from edges.
pub const FLAT_CENTER_WEIGHT: u32 = 8;

/// The rectangle grown by one pixel on each side where the image allows it.
/// Growing right and down needs room for one more pixel beyond the new edge.
pub open spec fn expand_rect(
    left: int, top: int, width: int, height: int, max_width: int, max_height: int,
) -> (int, int, int, int) {
    let (t1, h1) = if top > 0 { (top - 1, height + 1) } else { (top, height) };
    let (l1, w1) = if left > 0 { (left - 1, width + 1) } else { (left, width) };
    let w2 = if l1 + w1 + 1 < max_width { w1 + 1 } else { w1 };
    let h2 = if t1 + h1 + 1 < max_height { h1 + 1 } else { h1 };
    (l1, t1, w2, h2)
}

/// Grows a rectangle by one pixel on each side, within `max_width * max_height`.
pub fn expand_by_1(
    left: usize, top: usize, width: usize, height: usize, max_width: usize, max_height: usize,
) -> (r: (usize, usize, usize, usize))
    requires
        left + width + 1 <= usize::MAX,
        top + height + 1 <= usize::MAX,
    ensures
        (r.0 as int, r.1 as int, r.2 as int, r.3 as int) == expand_rect(
            left as int, top as int, width as int, height as int, max_width as int, max_height as int),
        r.0 <= left,
        r.1 <= top,
        left + width <= r.0 + r.2,
        top + height <= r.1 + r.3,
        left + width <= max_width ==> r.0 + r.2 <= max_width,
        top + height <= max_height ==> r.1 + r.3 <= max_height,
{
    let mut left = left;
    let mut top = top;
    let mut width = width;
    let mut height = height;
    if top > 0 {
        top -= 1;
        height += 1;
    }
    if left > 0 {
        left -= 1;
        width += 1;
    }
    if left + width + 1 < max_width {
        width += 1;
    }
    if top + height + 1 < max_height {
        height += 1;
    }
    (left, top, width, height)
}

/// Blends pixels one after another into a blend centred on palette entry `center`.
pub open spec fn add_all<P: PixAlphaAble>(
    b: Blend, center: usize, transparent: Option<u8>, pal: Seq<Rgb8>, memo: Seq<i8>, pxs: Seq<P>,
) -> (Blend, Seq<i8>)
    decreases pxs.len(),
{
    if pxs.len() == 0 {
        (b, memo)
    } else {
        let (b1, m1) = add_all(b, center, transparent, pal, memo, pxs.drop_last());
        add_model(b1, center, transparent, pal, m1, pxs.last())
    }
}

/// What one pass over a rectangle works on: the paletted source, its transparent
/// index, the palette's colors, the output image as it was before the pass, and the
/// rectangle (`left`, `top`, `width`, `height`) in both images' coordinates.
pub struct Region<P> {
    pub src: Image<P>,
    pub transparent: Option<u8>,
    pub pal: Seq<Rgb8>,
    pub base: Image<Rgb8>,
    pub left: nat,
    pub top: nat,
    pub width: nat,
    pub height: nat,
}

impl<P: PixAlphaAble> Region<P> {
    /// Gray value of the output image inside the rectangle, clamped to the rectangle.
    pub open spec fn region_gray(self, x: int, y: int) -> i16 {
        self.base.at(self.left + clamp(x, self.width as int), self.top + clamp(y, self.height as int)).spec_gray()
    }

    /// Edge strength at `(x, y)` of the rectangle, measured on the output image
    /// before the pass.
    pub open spec fn edge_at(self, x: int, y: int) -> u16 {
        prewitt_value(
            self.region_gray(x - 1, y - 1), self.region_gray(x, y - 1), self.region_gray(x + 1, y - 1),
            self.region_gray(x - 1, y), self.region_gray(x + 1, y),
            self.region_gray(x - 1, y + 1), self.region_gray(x, y + 1), self.region_gray(x + 1, y + 1),
        )
    }

    /// The source neighbourhood of `(x, y)` of the rectangle.
    pub open spec fn window(self, x: int, y: int) -> (Triple<P>, Triple<P>, Triple<P>) {
        self.src.neighbourhood(self.top as int, self.left + x, self.top + y)
    }

    pub open spec fn center_px(self, x: int, y: int) -> P {
        self.window(x, y).1.curr
    }

    /// The eight neighbours, row by row, in the order they are blended.
    pub open spec fn neighbours_of(self, x: int, y: int) -> Seq<P> {
        let (a, m, b) = self.window(x, y);
        seq![a.prev, a.curr, a.next, m.prev, m.next, b.prev, b.curr, b.next]
    }

    /// A pixel is left alone when it is transparent or lies on a strong edge.
    pub open spec fn skipped(self, x: int, y: int) -> bool {
        ||| self.center_px(x, y).spec_is_transparent(self.transparent)
        ||| self.edge_at(x, y) > PREWITT_HIGH_THRESHOLD
    }

    pub open spec fn center_weight(self, x: int, y: int) -> u32 {
        if self.edge_at(x, y) > PREWITT_LOW_THRESHOLD {
            EDGE_CENTER_WEIGHT
        } else {
            FLAT_CENTER_WEIGHT
        }
    }

    /// The color written at `(x, y)` (none when skipped) and the remembered weights after.
    pub open spec fn pixel_model(self, memo: Seq<i8>, x: int, y: int) -> (Option<Rgb8>, Seq<i8>) {
        if self.skipped(x, y) {
            (None, memo)
        } else {
            let center = self.center_px(x, y).spec_pal_index();
            let b0 = blend_of(self.pal[center as int], self.center_weight(x, y) as int);
            let (b, m) = add_all(b0, center, self.transparent, self.pal, memo, self.neighbours_of(x, y));
            (Some(blend_color(b)), m)
        }
    }

    /// Position in the output buffer of `(x, y)` of the rectangle.
    pub open spec fn target(self, x: int, y: int) -> int {
        (self.top + y) * self.base.w() + self.left + x
    }

    pub open spec fn scan_pixel(self, s: (Seq<Rgb8>, Seq<i8>), x: int, y: int) -> (Seq<Rgb8>, Seq<i8>) {
        let (c, m) = self.pixel_model(s.1, x, y);
        match c {
            Some(color) => (s.0.update(self.target(x, y), color), m),
            None => (s.0, m),
        }
    }

    /// The state after the first `x` pixels of row `y`.
    pub open spec fn scan_row(self, s: (Seq<Rgb8>, Seq<i8>), y: int, x: nat) -> (Seq<Rgb8>, Seq<i8>)
        decreases x,
    {
        if x == 0 {
            s
        } else {
            self.scan_pixel(self.scan_row(s, y, (x - 1) as nat), x - 1, y)
        }
    }

    /// The state after the first `y` rows.
    pub open spec fn scan_rows(self, s: (Seq<Rgb8>, Seq<i8>), y: nat) -> (Seq<Rgb8>, Seq<i8>)
        decreases y,
    {
        if y == 0 {
            s
        } else {
            self.scan_row(self.scan_rows(s, (y - 1) as nat), y - 1, self.width)
        }
    }

    /// The output pixels and remembered weights after the pass, starting from `memo`.
    /// An empty source is not scanned at all.
    pub open spec fn result(self, memo: Seq<i8>) -> (Seq<Rgb8>, Seq<i8>) {
        if self.src.w() == 0 || self.src.h() == 0 {
            (self.base.pixels(), memo)
        } else {
            self.scan_rows((self.base.pixels(), memo), self.height)
        }
    }

    /// The palette lookups at `(x, y)` stay within the palette and the cache.
    pub open spec fn pixel_ok(self, x: int, y: int) -> bool {
        self.skipped(x, y) || {
            let center = self.center_px(x, y).spec_pal_index();
            &&& center < self.pal.len()
            &&& forall|k: int|
                0 <= k < 8 && !(#[trigger] self.neighbours_of(x, y)[k]).spec_is_transparent(self.transparent)
                    ==> valid_pair(self.pal.len() as int, center, self.neighbours_of(x, y)[k].spec_pal_index())
        }
    }

    /// Every pixel of the rectangle passes `pixel_ok` (vacuous for an empty source).
    pub open spec fn lookups_ok(self) -> bool {
        self.src.w() > 0 && self.src.h() > 0 ==> forall|x: int, y: int|
            0 <= x < self.width && 0 <= y < self.height ==> #[trigger] self.pixel_ok(x, y)
    }
}

impl<P: PixAlphaAble> Region<P> {
    /// The rectangle lies inside the output image, whose buffer is well formed.
    pub open spec fn fits(self) -> bool {
        &&& self.base.wf()
        &&& self.left + self.width <= self.base.w()
        &&& self.top + self.height <= self.base.h()
    }
}

proof fn lemma_target_in_bounds<P: PixAlphaAble>(c: Region<P>, x: int, y: int)
    requires
        c.fits(),
        0 <= x < c.width,
        0 <= y < c.height,
    ensures
        0 <= c.target(x, y) < c.base.pixels().len(),
        c.target(x, y) == (c.top + y) * c.base.w() + (c.left + x),
{
    lemma_index_in_bounds(c.left + x, c.top + y, c.base.w() as int, c.base.h() as int);
}

/// Targets of distinct pixels of the rectangle differ.
proof fn lemma_target_injective<P: PixAlphaAble>(c: Region<P>, x1: int, y1: int, x2: int, y2: int)
    requires
        c.fits(),
        0 <= x1 < c.width,
        0 <= y1 < c.height,
        0 <= x2 < c.width,
        0 <= y2 < c.height,
        c.target(x1, y1) == c.target(x2, y2),
    ensures
        x1 == x2,
        y1 == y2,
{
    lemma_index_injective(c.left + x1, c.top + y1, c.left + x2, c.top + y2, c.base.w() as int);
}

/// Scanning pixels `m..n` of row `y` leaves position `k` alone unless one of them targets it.
proof fn lemma_scan_row_tail<P: PixAlphaAble>(c: Region<P>, s: (Seq<Rgb8>, Seq<i8>), y: int, m: nat, n: nat, k: int)
    requires
        c.fits(),
        s.0.len() == c.base.pixels().len(),
        0 <= y < c.height,
        m <= n <= c.width,
        forall|x2: int| m <= x2 < n ==> #[trigger] c.target(x2, y) != k,
    ensures
        c.scan_row(s, y, n).0.len() == s.0.len(),
        0 <= k < s.0.len() ==> c.scan_row(s, y, n).0[k] == c.scan_row(s, y, m).0[k],
    decreases n,
{
    if n > m {
        lemma_scan_row_tail(c, s, y, m, (n - 1) as nat, k);
        lemma_target_in_bounds(c, n - 1, y);
        assert(c.target(n - 1, y) != k);
    } else if n > 0 {
        lemma_scan_row_tail(c, s, y, 0, (n - 1) as nat, -1);
        lemma_target_in_bounds(c, n - 1, y);
    }
}

/// Scanning rows `m..n` leaves position `k` alone unless one of their pixels targets it.
proof fn lemma_scan_rows_tail<P: PixAlphaAble>(c: Region<P>, s: (Seq<Rgb8>, Seq<i8>), m: nat, n: nat, k: int)
    requires
        c.fits(),
        s.0.len() == c.base.pixels().len(),
        m <= n <= c.height,
        forall|x2: int, y2: int| 0 <= x2 < c.width && m <= y2 < n ==> #[trigger] c.target(x2, y2) != k,
    ensures
        c.scan_rows(s, n).0.len() == s.0.len(),
        0 <= k < s.0.len() ==> c.scan_rows(s, n).0[k] == c.scan_rows(s, m).0[k],
    decreases n,
{
    if n > 0 {
        if n > m {
            lemma_scan_rows_tail(c, s, m, (n - 1) as nat, k);
        } else {
            lemma_scan_rows_tail(c, s, 0, (n - 1) as nat, -1);
        }
        let prev = c.scan_rows(s, (n - 1) as nat);
        if n > m {
            assert forall|x2: int| 0 <= x2 < c.width implies #[trigger] c.target(x2, n - 1) != k by {
                assert(c.target(x2, n - 1) != k);
            }
            lemma_scan_row_tail(c, prev, n - 1, 0, c.width, k);
        } else {
            lemma_scan_row_tail(c, prev, n - 1, c.width, c.width, k);
        }
    }
}

/// The final value at the target of `(x, y)` is what the pass computed there, from
/// the remembered weights of that moment, or the old value when it wrote nothing.
pub proof fn lemma_pixel_outcome<P: PixAlphaAble>(c: Region<P>, memo: Seq<i8>, x: int, y: int)
    requires
        c.fits(),
        c.src.w() > 0,
        c.src.h() > 0,
        0 <= x < c.width,
        0 <= y < c.height,
    ensures
        ({
            let before = c.scan_row(c.scan_rows((c.base.pixels(), memo), y as nat), y, x as nat);
            c.result(memo).0[c.target(x, y)] == match c.pixel_model(before.1, x, y).0 {
                Some(color) => color,
                None => c.base.at(c.left + x, c.top + y),
            }
        }),
{
    let init = (c.base.pixels(), memo);
    let t = c.target(x, y);
    lemma_target_in_bounds(c, x, y);
    assert forall|x2: int, y2: int| 0 <= x2 < c.width && 0 <= y2 < y implies #[trigger] c.target(x2, y2) != t by {
        if c.target(x2, y2) == t {
            lemma_target_injective(c, x2, y2, x, y);
        }
    }
    lemma_scan_rows_tail(c, init, 0, y as nat, t);
    let a = c.scan_rows(init, y as nat);
    assert forall|x2: int| 0 <= x2 < x implies #[trigger] c.target(x2, y) != t by {
        if c.target(x2, y) == t {
            lemma_target_injective(c, x2, y, x, y);
        }
    }
    lemma_scan_row_tail(c, a, y, 0, x as nat, t);
    let b = c.scan_row(a, y, x as nat);
    lemma_scan_row_tail(c, a, y, 0, x as nat, -1);
    assert forall|x2: int| x + 1 <= x2 < c.width implies #[trigger] c.target(x2, y) != t by {
        if c.target(x2, y) == t {
            lemma_target_injective(c, x2, y, x, y);
        }
    }
    lemma_scan_row_tail(c, a, y, (x + 1) as nat, c.width, t);
    lemma_scan_row_tail(c, a, y, 0, (x + 1) as nat, -1);
    assert forall|x2: int, y2: int| 0 <= x2 < c.width && y + 1 <= y2 < c.height implies #[trigger] c.target(x2, y2) != t by {
        if c.target(x2, y2) == t {
            lemma_target_injective(c, x2, y2, x, y);
        }
    }
    lemma_scan_rows_tail(c, init, (y + 1) as nat, c.height, t);
}

/// A non-transparent pixel whose edge strength on the output image is at most 256 is
/// written: it becomes the blend of its center color, with own weight 24 when the edge
/// strength is above 160 and 8 otherwise, and its eight neighbours, each channel sum
/// divided by the total weight.
pub proof fn lemma_pixel_blended_unless_strong_edge<P: PixAlphaAble>(c: Region<P>, memo: Seq<i8>, x: int, y: int)
    requires
        c.fits(),
        0 <= x < c.width,
        0 <= y < c.height,
        c.src.w() > 0,
        c.src.h() > 0,
        !c.center_px(x, y).spec_is_transparent(c.transparent),
        c.edge_at(x, y) <= 256,
    ensures
        ({
            let before = c.scan_row(c.scan_rows((c.base.pixels(), memo), y as nat), y, x as nat);
            let center = c.center_px(x, y).spec_pal_index();
            let col = c.pal[center as int];
            let w: int = if c.edge_at(x, y) > 160 { 24 } else { 8 };
            let start = Blend { r: col.r * w, g: col.g * w, b: col.b * w, weight: w };
            let b = add_all(start, center, c.transparent, c.pal, before.1, c.neighbours_of(x, y)).0;
            c.result(memo).0[c.target(x, y)] == (Rgb8 {
                r: (b.r / b.weight) as u8,
                g: (b.g / b.weight) as u8,
                b: (b.b / b.weight) as u8,
            })
        }),
{
    lemma_pixel_outcome(c, memo, x, y);
}

/// Outside the rectangle nothing changes.
pub proof fn lemma_outside_unchanged<P: PixAlphaAble>(c: Region<P>, memo: Seq<i8>, x: int, y: int)
    requires
        c.fits(),
        0 <= x < c.base.w(),
        0 <= y < c.base.h(),
        !(c.left <= x < c.left + c.width && c.top <= y < c.top + c.height),
    ensures
        c.result(memo).0.len() == c.base.pixels().len(),
        c.result(memo).0[y * c.base.w() + x] == c.base.at(x, y),
{
    lemma_index_in_bounds(x, y, c.base.w() as int, c.base.h() as int);
    if c.src.w() > 0 && c.src.h() > 0 {
        let k = y * c.base.w() + x;
        assert forall|x2: int, y2: int| 0 <= x2 < c.width && 0 <= y2 < c.height implies #[trigger] c.target(x2, y2) != k by {
            lemma_target_in_bounds(c, x2, y2);
            if c.target(x2, y2) == k {
                lemma_index_injective(c.left + x2, c.top + y2, x, y, c.base.w() as int);
            }
        }
        lemma_scan_rows_tail(c, (c.base.pixels(), memo), 0, c.height, k);
    }
}

/// Transparent pixels and pixels on strong edges keep their old color.
pub proof fn lemma_skipped_unchanged<P: PixAlphaAble>(c: Region<P>, memo: Seq<i8>, x: int, y: int)
    requires
        c.fits(),
        0 <= x < c.width,
        0 <= y < c.height,
        c.skipped(x, y),
    ensures
        c.result(memo).0[c.target(x, y)] == c.base.at(c.left + x, c.top + y),
{
    lemma_target_in_bounds(c, x, y);
    if c.src.w() > 0 && c.src.h() > 0 {
        lemma_pixel_outcome(c, memo, x, y);
    }
}

/// Blending in pixels of the center's own palette entry keeps the blend's color.
proof fn lemma_add_all_same_color<P: PixAlphaAble>(
    b: Blend, center: usize, transparent: Option<u8>, pal: Seq<Rgb8>, memo: Seq<i8>, pxs: Seq<P>,
)
    requires
        center < pal.len(),
        b.r == pal[center as int].r * b.weight,
        b.g == pal[center as int].g * b.weight,
        b.b == pal[center as int].b * b.weight,
        b.weight > 0,
        forall|k: int| 0 <= k < pxs.len() ==> (#[trigger] pxs[k]).spec_is_transparent(transparent) || pxs[k].spec_pal_index() == center,
    ensures
        ({
            let r = add_all(b, center, transparent, pal, memo, pxs).0;
            &&& r.r == pal[center as int].r * r.weight
            &&& r.g == pal[center as int].g * r.weight
            &&& r.b == pal[center as int].b * r.weight
            &&& r.weight > 0
        }),
    decreases pxs.len(),
{
    if pxs.len() > 0 {
        lemma_add_all_same_color(b, center, transparent, pal, memo, pxs.drop_last());
        let (b1, m1) = add_all(b, center, transparent, pal, memo, pxs.drop_last());
        let px = pxs.last();
        assert(px == pxs[pxs.len() - 1]);
        if !px.spec_is_transparent(transparent) {
            let (w, m2) = crate::acc::compare_model(pal, m1, center, px.spec_pal_index());
            if w > 0 {
                let col = pal[center as int];
                assert(col.r * b1.weight + col.r * w == col.r * (b1.weight + w)) by (nonlinear_arith);
                assert(col.g * b1.weight + col.g * w == col.g * (b1.weight + w)) by (nonlinear_arith);
                assert(col.b * b1.weight + col.b * w == col.b * (b1.weight + w)) by (nonlinear_arith);
            }
        }
    }
}

/// A pixel whose non-transparent neighbours all share its palette entry comes out in
/// exactly that entry's color: flat areas are not altered.
pub proof fn lemma_flat_area_keeps_color<P: PixAlphaAble>(c: Region<P>, memo: Seq<i8>, x: int, y: int)
    requires
        c.fits(),
        0 <= x < c.width,
        0 <= y < c.height,
        !c.skipped(x, y),
        c.src.w() > 0,
        c.src.h() > 0,
        c.center_px(x, y).spec_pal_index() < c.pal.len(),
        forall|k: int| 0 <= k < 8 ==> (#[trigger] c.neighbours_of(x, y)[k]).spec_is_transparent(c.transparent)
            || c.neighbours_of(x, y)[k].spec_pal_index() == c.center_px(x, y).spec_pal_index(),
    ensures
        c.result(memo).0[c.target(x, y)] == c.pal[c.center_px(x, y).spec_pal_index() as int],
{
    lemma_pixel_outcome(c, memo, x, y);
    let before = c.scan_row(c.scan_rows((c.base.pixels(), memo), y as nat), y, x as nat);
    let center = c.center_px(x, y).spec_pal_index();
    let col = c.pal[center as int];
    let w = c.center_weight(x, y) as int;
    let b0 = blend_of(col, w);
    let pxs = c.neighbours_of(x, y);
    assert forall|k: int| 0 <= k < pxs.len() implies (#[trigger] pxs[k]).spec_is_transparent(c.transparent) || pxs[k].spec_pal_index() == center by {
        assert(pxs.len() == 8);
    }
    lemma_add_all_same_color(b0, center, c.transparent, c.pal, before.1, pxs);
    let b = add_all(b0, center, c.transparent, c.pal, before.1, pxs).0;
    assert((col.r * b.weight) / b.weight == col.r as int) by (nonlinear_arith)
        requires
            b.weight > 0,
    ;
    assert((col.g * b.weight) / b.weight == col.g as int) by (nonlinear_arith)
        requires
            b.weight > 0,
    ;
    assert((col.b * b.weight) / b.weight == col.b as int) by (nonlinear_arith)
        requires
            b.weight > 0,
    ;
}

/// Every non-transparent pixel of `src` names one of the first `pal_len` palette
/// entries, and an entry below 256.
pub open spec fn indices_within<P: PixAlphaAble>(src: Image<P>, transparent: Option<u8>, pal_len: int) -> bool {
    forall|k: int|
        0 <= k < src.pixels().len() && !(#[trigger] src.pixels()[k]).spec_is_transparent(transparent)
            ==> src.pixels()[k].spec_pal_index() < pal_len && src.pixels()[k].spec_pal_index() < 256
}

/// Checks `indices_within`; when it holds, every pass over `src` stays within the
/// palette (see `lemma_indices_within_lookups_ok`).
pub fn indices_in_palette<P: PixAlphaAble + Copy>(src: &Image<P>, transparent: Option<u8>, pal_len: usize) -> (ok: bool)
    ensures
        ok == indices_within(*src, transparent, pal_len as int),
{
    let pixels = src.buf();
    let n = pixels.len();
    let mut i: usize = 0;
    while i < n
        invariant
            n == pixels@.len(),
            pixels@ == src.pixels(),
            i <= n,
            forall|k: int|
                0 <= k < i && !(#[trigger] pixels@[k]).spec_is_transparent(transparent)
                    ==> pixels@[k].spec_pal_index() < pal_len && pixels@[k].spec_pal_index() < 256,
        decreases n - i,
    {
        let p = pixels[i];
        if !p.is_transparent(transparent) {
            let index = p.pal_index();
            if index >= pal_len || index >= 256 {
                return false;
            }
        }
        i += 1;
    }
    true
}

proof fn lemma_slot_small(a: usize, b: usize)
    requires
        a < 256,
        b < 256,
    ensures
        cache_slot(a, b) < 65536,
{
    assert(a << 8 | b < 65536) by (bit_vector)
        requires
            a < 256,
            b < 256,
    ;
    assert(b << 8 | a < 65536) by (bit_vector)
        requires
            a < 256,
            b < 256,
    ;
}

proof fn lemma_clamped_within<P: PixAlphaAble>(src: Image<P>, transparent: Option<u8>, pal_len: int, x: int, y: int)
    requires
        src.wf(),
        src.w() > 0,
        src.h() > 0,
        indices_within(src, transparent, pal_len),
        !src.at_clamped(x, y).spec_is_transparent(transparent),
    ensures
        src.at_clamped(x, y).spec_pal_index() < pal_len,
        src.at_clamped(x, y).spec_pal_index() < 256,
{
    let cx = clamp(x, src.w() as int);
    let cy = clamp(y, src.h() as int);
    lemma_index_in_bounds(cx, cy, src.w() as int, src.h() as int);
    assert(src.at_clamped(x, y) == src.pixels()[cy * src.w() + cx]);
}

/// When every non-transparent source pixel names a palette entry below 256, a pass
/// never looks outside the palette or the cache.
pub proof fn lemma_indices_within_lookups_ok<P: PixAlphaAble>(c: Region<P>)
    requires
        c.src.wf(),
        indices_within(c.src, c.transparent, c.pal.len() as int),
    ensures
        c.lookups_ok(),
{
    if c.src.w() > 0 && c.src.h() > 0 {
        assert forall|x: int, y: int| 0 <= x < c.width && 0 <= y < c.height implies #[trigger] c.pixel_ok(x, y) by {
            if !c.skipped(x, y) {
                let gx = c.left + x;
                let gy = c.top + y;
                let above = Image::<P>::row_above(c.top as int, gy);
                lemma_clamped_within(c.src, c.transparent, c.pal.len() as int, gx, gy);
                let center = c.center_px(x, y).spec_pal_index();
                assert forall|k: int| 0 <= k < 8 && !(#[trigger] c.neighbours_of(x, y)[k]).spec_is_transparent(c.transparent)
                    implies valid_pair(c.pal.len() as int, center, c.neighbours_of(x, y)[k].spec_pal_index()) by {
                    let nb = c.neighbours_of(x, y);
                    if k == 0 { lemma_clamped_within(c.src, c.transparent, c.pal.len() as int, gx - 1, above); }
                    if k == 1 { lemma_clamped_within(c.src, c.transparent, c.pal.len() as int, gx, above); }
                    if k == 2 { lemma_clamped_within(c.src, c.transparent, c.pal.len() as int, gx + 1, above); }
                    if k == 3 { lemma_clamped_within(c.src, c.transparent, c.pal.len() as int, gx - 1, gy); }
                    if k == 4 { lemma_clamped_within(c.src, c.transparent, c.pal.len() as int, gx + 1, gy); }
                    if k == 5 { lemma_clamped_within(c.src, c.transparent, c.pal.len() as int, gx - 1, gy + 1); }
                    if k == 6 { lemma_clamped_within(c.src, c.transparent, c.pal.len() as int, gx, gy + 1); }
                    if k == 7 { lemma_clamped_within(c.src, c.transparent, c.pal.len() as int, gx + 1, gy + 1); }
                    lemma_slot_small(center, nb[k].spec_pal_index());
                }
            }
        }
    }
}

/// Each channel of `col` lies between that of `lo` and that of `hi`.
pub open spec fn within(col: Rgb8, lo: Rgb8, hi: Rgb8) -> bool {
    &&& lo.r <= col.r <= hi.r
    &&& lo.g <= col.g <= hi.g
    &&& lo.b <= col.b <= hi.b
}

/// A blend whose sums lie between `lo` and `hi` times its weight.
pub open spec fn blend_within(b: Blend, lo: Rgb8, hi: Rgb8) -> bool {
    &&& b.weight > 0
    &&& lo.r * b.weight <= b.r <= hi.r * b.weight
    &&& lo.g * b.weight <= b.g <= hi.g * b.weight
    &&& lo.b * b.weight <= b.b <= hi.b * b.weight
}

proof fn lemma_blend_add_within(b: Blend, col: Rgb8, w: int, lo: Rgb8, hi: Rgb8)
    requires
        blend_within(b, lo, hi),
        within(col, lo, hi),
        w > 0,
    ensures
        blend_within(crate::acc::blend_add(b, col, w), lo, hi),
{
    let nb = crate::acc::blend_add(b, col, w);
    assert(lo.r * nb.weight <= nb.r <= hi.r * nb.weight) by (nonlinear_arith)
        requires
            lo.r * b.weight <= b.r <= hi.r * b.weight,
            lo.r <= col.r <= hi.r,
            w > 0,
            nb.r == b.r + col.r * w,
            nb.weight == b.weight + w,
    ;
    assert(lo.g * nb.weight <= nb.g <= hi.g * nb.weight) by (nonlinear_arith)
        requires
            lo.g * b.weight <= b.g <= hi.g * b.weight,
            lo.g <= col.g <= hi.g,
            w > 0,
            nb.g == b.g + col.g * w,
            nb.weight == b.weight + w,
    ;
    assert(lo.b * nb.weight <= nb.b <= hi.b * nb.weight) by (nonlinear_arith)
        requires
            lo.b * b.weight <= b.b <= hi.b * b.weight,
            lo.b <= col.b <= hi.b,
            w > 0,
            nb.b == b.b + col.b * w,
            nb.weight == b.weight + w,
    ;
}

proof fn lemma_add_all_within<P: PixAlphaAble>(
    b: Blend, center: usize, transparent: Option<u8>, pal: Seq<Rgb8>, memo: Seq<i8>, pxs: Seq<P>, lo: Rgb8, hi: Rgb8,
)
    requires
        blend_within(b, lo, hi),
        forall|k: int| 0 <= k < pxs.len() && !(#[trigger] pxs[k]).spec_is_transparent(transparent)
            ==> pxs[k].spec_pal_index() < pal.len() && within(pal[pxs[k].spec_pal_index() as int], lo, hi),
    ensures
        blend_within(add_all(b, center, transparent, pal, memo, pxs).0, lo, hi),
    decreases pxs.len(),
{
    if pxs.len() > 0 {
        lemma_add_all_within(b, center, transparent, pal, memo, pxs.drop_last(), lo, hi);
        let (b1, m1) = add_all(b, center, transparent, pal, memo, pxs.drop_last());
        let px = pxs.last();
        assert(px == pxs[pxs.len() - 1]);
        if !px.spec_is_transparent(transparent) {
            let (w, m2) = crate::acc::compare_model(pal, m1, center, px.spec_pal_index());
            if w > 0 {
                lemma_blend_add_within(b1, pal[px.spec_pal_index() as int], w, lo, hi);
            }
        }
    }
}

/// A blended pixel never leaves the range of the colors it was blended from: if the
/// center and every non-transparent neighbour have channels between `lo` and `hi`,
/// so does the result.
pub proof fn lemma_output_within_window_colors<P: PixAlphaAble>(
    c: Region<P>, memo: Seq<i8>, x: int, y: int, lo: Rgb8, hi: Rgb8,
)
    requires
        c.fits(),
        0 <= x < c.width,
        0 <= y < c.height,
        !c.skipped(x, y),
        c.src.w() > 0,
        c.src.h() > 0,
        c.center_px(x, y).spec_pal_index() < c.pal.len(),
        within(c.pal[c.center_px(x, y).spec_pal_index() as int], lo, hi),
        forall|k: int| 0 <= k < 8 && !(#[trigger] c.neighbours_of(x, y)[k]).spec_is_transparent(c.transparent)
            ==> c.neighbours_of(x, y)[k].spec_pal_index() < c.pal.len()
                && within(c.pal[c.neighbours_of(x, y)[k].spec_pal_index() as int], lo, hi),
    ensures
        within(c.result(memo).0[c.target(x, y)], lo, hi),
{
    lemma_pixel_outcome(c, memo, x, y);
    let before = c.scan_row(c.scan_rows((c.base.pixels(), memo), y as nat), y, x as nat);
    let center = c.center_px(x, y).spec_pal_index();
    let col = c.pal[center as int];
    let w = c.center_weight(x, y) as int;
    let b0 = blend_of(col, w);
    assert(blend_within(b0, lo, hi)) by {
        assert(lo.r * w <= col.r * w <= hi.r * w && lo.g * w <= col.g * w <= hi.g * w
            && lo.b * w <= col.b * w <= hi.b * w) by (nonlinear_arith)
            requires
                within(col, lo, hi),
                w > 0,
        ;
    }
    let pxs = c.neighbours_of(x, y);
    assert(pxs.len() == 8);
    lemma_add_all_within(b0, center, c.transparent, c.pal, before.1, pxs, lo, hi);
    let b = add_all(b0, center, c.transparent, c.pal, before.1, pxs).0;
    assert(lo.r <= b.r / b.weight <= hi.r) by (nonlinear_arith)
        requires
            b.weight > 0,
            lo.r * b.weight <= b.r <= hi.r * b.weight,
    ;
    assert(lo.g <= b.g / b.weight <= hi.g) by (nonlinear_arith)
        requires
            b.weight > 0,
            lo.g * b.weight <= b.g <= hi.g * b.weight,
    ;
    assert(lo.b <= b.b / b.weight <= hi.b) by (nonlinear_arith)
        requires
            b.weight > 0,
            lo.b * b.weight <= b.b <= hi.b * b.weight,
    ;
}

proof fn lemma_add_all_extends<P: PixAlphaAble>(
    b: Blend, center: usize, transparent: Option<u8>, pal: Seq<Rgb8>, memo: Seq<i8>, pxs: Seq<P>,
)
    requires
        memo.len() == 65536,
        forall|k: int| 0 <= k < pxs.len() && !(#[trigger] pxs[k]).spec_is_transparent(transparent)
            ==> cache_slot(center, pxs[k].spec_pal_index()) < 65536,
    ensures
        memo_extends(memo, add_all(b, center, transparent, pal, memo, pxs).1),
    decreases pxs.len(),
{
    if pxs.len() > 0 {
        let pre = pxs.drop_last();
        assert forall|k: int| 0 <= k < pre.len() && !(#[trigger] pre[k]).spec_is_transparent(transparent)
            implies cache_slot(center, pre[k].spec_pal_index()) < 65536 by {
            assert(pre[k] == pxs[k]);
        }
        lemma_add_all_extends(b, center, transparent, pal, memo, pre);
        let (b1, m1) = add_all(b, center, transparent, pal, memo, pre);
        let px = pxs.last();
        assert(px == pxs[pxs.len() - 1]);
        if !px.spec_is_transparent(transparent) {
            lemma_compare_model_extends(pal, m1, center, px.spec_pal_index());
            let m2 = add_all(b, center, transparent, pal, memo, pxs).1;
            lemma_memo_extends_trans(memo, m1, m2);
        }
    }
}

proof fn lemma_scan_pixel_extends<P: PixAlphaAble>(c: Region<P>, s: (Seq<Rgb8>, Seq<i8>), x: int, y: int)
    requires
        c.pixel_ok(x, y),
        s.1.len() == 65536,
    ensures
        memo_extends(s.1, c.scan_pixel(s, x, y).1),
{
    if !c.skipped(x, y) {
        let center = c.center_px(x, y).spec_pal_index();
        let pxs = c.neighbours_of(x, y);
        let b0 = blend_of(c.pal[center as int], c.center_weight(x, y) as int);
        assert forall|k: int| 0 <= k < pxs.len() && !(#[trigger] pxs[k]).spec_is_transparent(c.transparent)
            implies cache_slot(center, pxs[k].spec_pal_index()) < 65536 by {
            assert(pxs.len() == 8);
        }
        lemma_add_all_extends(b0, center, c.transparent, c.pal, s.1, pxs);
    }
}

proof fn lemma_scan_row_extends<P: PixAlphaAble>(c: Region<P>, s: (Seq<Rgb8>, Seq<i8>), y: int, m: nat, n: nat)
    requires
        c.src.w() > 0,
        c.src.h() > 0,
        c.lookups_ok(),
        0 <= y < c.height,
        m <= n <= c.width,
        s.1.len() == 65536,
    ensures
        memo_extends(s.1, c.scan_row(s, y, n).1),
        memo_extends(c.scan_row(s, y, m).1, c.scan_row(s, y, n).1),
    decreases n,
{
    if n > 0 {
        let m1: nat = if m < n { m } else { (n - 1) as nat };
        lemma_scan_row_extends(c, s, y, m1, (n - 1) as nat);
        let p = c.scan_row(s, y, (n - 1) as nat);
        assert(c.pixel_ok(n - 1, y));
        lemma_scan_pixel_extends(c, p, n - 1, y);
        lemma_memo_extends_trans(s.1, p.1, c.scan_row(s, y, n).1);
        if m < n {
            lemma_memo_extends_trans(c.scan_row(s, y, m).1, p.1, c.scan_row(s, y, n).1);
        }
    }
}

proof fn lemma_scan_rows_extends<P: PixAlphaAble>(c: Region<P>, s: (Seq<Rgb8>, Seq<i8>), m: nat, n: nat)
    requires
        c.src.w() > 0,
        c.src.h() > 0,
        c.lookups_ok(),
        m <= n <= c.height,
        s.1.len() == 65536,
    ensures
        memo_extends(s.1, c.scan_rows(s, n).1),
        memo_extends(c.scan_rows(s, m).1, c.scan_rows(s, n).1),
    decreases n,
{
    if n > 0 {
        let m1: nat = if m < n { m } else { (n - 1) as nat };
        lemma_scan_rows_extends(c, s, m1, (n - 1) as nat);
        let p = c.scan_rows(s, (n - 1) as nat);
        lemma_scan_row_extends(c, p, n - 1, 0, c.width);
        lemma_memo_extends_trans(s.1, p.1, c.scan_rows(s, n).1);
        if m < n {
            lemma_memo_extends_trans(c.scan_rows(s, m).1, p.1, c.scan_rows(s, n).1);
        }
    }
}

/// A pass keeps every weight that was remembered before it.
pub proof fn lemma_pass_keeps_weights<P: PixAlphaAble>(c: Region<P>, memo: Seq<i8>)
    requires
        c.lookups_ok(),
        memo.len() == 65536,
    ensures
        memo_extends(memo, c.result(memo).1),
{
    if c.src.w() > 0 && c.src.h() > 0 {
        lemma_scan_rows_extends(c, (c.base.pixels(), memo), 0, c.height);
    }
}

proof fn lemma_add_all_within_used<P: PixAlphaAble>(
    b: Blend, center: usize, transparent: Option<u8>, pal: Seq<Rgb8>, memo: Seq<i8>, pxs: Seq<P>,
    lo: Rgb8, hi: Rgb8, mf: Seq<i8>,
)
    requires
        blend_within(b, lo, hi),
        memo.len() == 65536,
        forall|k: int| 0 <= k < pxs.len() && !(#[trigger] pxs[k]).spec_is_transparent(transparent)
            ==> cache_slot(center, pxs[k].spec_pal_index()) < 65536 && pxs[k].spec_pal_index() < pal.len(),
        memo_extends(add_all(b, center, transparent, pal, memo, pxs).1, mf),
        forall|k: int| 0 <= k < pxs.len() && !(#[trigger] pxs[k]).spec_is_transparent(transparent)
            && mf[cache_slot(center, pxs[k].spec_pal_index()) as int] > 0
            ==> within(pal[pxs[k].spec_pal_index() as int], lo, hi),
    ensures
        blend_within(add_all(b, center, transparent, pal, memo, pxs).0, lo, hi),
    decreases pxs.len(),
{
    if pxs.len() > 0 {
        let pre = pxs.drop_last();
        let (b1, m1) = add_all(b, center, transparent, pal, memo, pre);
        let m2 = add_all(b, center, transparent, pal, memo, pxs).1;
        let px = pxs.last();
        assert(px == pxs[pxs.len() - 1]);
        assert forall|k: int| 0 <= k < pre.len() && !(#[trigger] pre[k]).spec_is_transparent(transparent)
            implies cache_slot(center, pre[k].spec_pal_index()) < 65536 by {
            assert(pre[k] == pxs[k]);
        }
        lemma_add_all_extends(b, center, transparent, pal, memo, pre);
        if !px.spec_is_transparent(transparent) {
            lemma_compare_model_extends(pal, m1, center, px.spec_pal_index());
            lemma_memo_extends_trans(m1, m2, mf);
        }
        assert forall|k: int| 0 <= k < pre.len() && !(#[trigger] pre[k]).spec_is_transparent(transparent)
            implies cache_slot(center, pre[k].spec_pal_index()) < 65536 && pre[k].spec_pal_index() < pal.len() by {
            assert(pre[k] == pxs[k]);
        }
        assert forall|k: int| 0 <= k < pre.len() && !(#[trigger] pre[k]).spec_is_transparent(transparent)
            && mf[cache_slot(center, pre[k].spec_pal_index()) as int] > 0
            implies within(pal[pre[k].spec_pal_index() as int], lo, hi) by {
            assert(pre[k] == pxs[k]);
        }
        lemma_add_all_within_used(b, center, transparent, pal, memo, pre, lo, hi, mf);
        if !px.spec_is_transparent(transparent) {
            let (w, _m) = crate::acc::compare_model(pal, m1, center, px.spec_pal_index());
            if w > 0 {
                let slot = cache_slot(center, px.spec_pal_index()) as int;
                assert(mf[slot] == m2[slot]);
                lemma_blend_add_within(b1, pal[px.spec_pal_index() as int], w, lo, hi);
            }
        }
    }
}

/// A blended pixel stays within the range of the colors of its center and of those
/// neighbours that were blended in, that is, whose pair with the center holds a
/// positive weight once the pass is over.
pub proof fn lemma_output_within_blended_colors<P: PixAlphaAble>(
    c: Region<P>, memo: Seq<i8>, x: int, y: int, lo: Rgb8, hi: Rgb8,
)
    requires
        c.fits(),
        c.lookups_ok(),
        memo.len() == 65536,
        0 <= x < c.width,
        0 <= y < c.height,
        !c.skipped(x, y),
        c.src.w() > 0,
        c.src.h() > 0,
        within(c.pal[c.center_px(x, y).spec_pal_index() as int], lo, hi),
        forall|k: int| 0 <= k < 8 && !(#[trigger] c.neighbours_of(x, y)[k]).spec_is_transparent(c.transparent)
            && c.result(memo).1[cache_slot(c.center_px(x, y).spec_pal_index(), c.neighbours_of(x, y)[k].spec_pal_index()) as int] > 0
            ==> within(c.pal[c.neighbours_of(x, y)[k].spec_pal_index() as int], lo, hi),
    ensures
        within(c.result(memo).0[c.target(x, y)], lo, hi),
{
    let init = (c.base.pixels(), memo);
    lemma_pixel_outcome(c, memo, x, y);
    let a = c.scan_rows(init, y as nat);
    let before = c.scan_row(a, y, x as nat);
    let mf = c.result(memo).1;
    lemma_scan_rows_extends(c, init, y as nat, c.height);
    lemma_scan_rows_extends(c, init, (y + 1) as nat, c.height);
    lemma_scan_row_extends(c, a, y, x as nat, x as nat);
    lemma_scan_row_extends(c, a, y, (x + 1) as nat, c.width);
    lemma_memo_extends_trans(c.scan_row(a, y, (x + 1) as nat).1, c.scan_rows(init, (y + 1) as nat).1, mf);
    assert(c.pixel_ok(x, y));
    let center = c.center_px(x, y).spec_pal_index();
    let col = c.pal[center as int];
    let w = c.center_weight(x, y) as int;
    let b0 = blend_of(col, w);
    assert(blend_within(b0, lo, hi)) by {
        assert(lo.r * w <= col.r * w <= hi.r * w && lo.g * w <= col.g * w <= hi.g * w
            && lo.b * w <= col.b * w <= hi.b * w) by (nonlinear_arith)
            requires
                within(col, lo, hi),
                w > 0,
        ;
    }
    let pxs = c.neighbours_of(x, y);
    assert(pxs.len() == 8);
    assert forall|k: int| 0 <= k < pxs.len() && !(#[trigger] pxs[k]).spec_is_transparent(c.transparent)
        implies cache_slot(center, pxs[k].spec_pal_index()) < 65536 && pxs[k].spec_pal_index() < c.pal.len() by {
    }
    lemma_add_all_within_used(b0, center, c.transparent, c.pal, before.1, pxs, lo, hi, mf);
    let b = add_all(b0, center, c.transparent, c.pal, before.1, pxs).0;
    assert(lo.r <= b.r / b.weight <= hi.r) by (nonlinear_arith)
        requires
            b.weight > 0,
            lo.r * b.weight <= b.r <= hi.r * b.weight,
    ;
    assert(lo.g <= b.g / b.weight <= hi.g) by (nonlinear_arith)
        requires
            b.weight > 0,
            lo.g * b.weight <= b.g <= hi.g * b.weight,
    ;
    assert(lo.b <= b.b / b.weight <= hi.b) by (nonlinear_arith)
        requires
            b.weight > 0,
            lo.b * b.weight <= b.b <= hi.b * b.weight,
    ;
}

/// A positive remembered weight never joins a pair with a palette color between them.
proof fn lemma_positive_weight_not_edge(pal: Seq<Rgb8>, memo: Seq<i8>, a: usize, b: usize)
    requires
        pal.len() <= 256,
        a < pal.len(),
        b < pal.len(),
        memo_facts(pal, memo),
        memo[cache_slot(a, b) as int] > 0,
    ensures
        !edge_pair(pal, a as int, b as int),
{
    let i = if a <= b { a } else { b };
    let j = if a <= b { b } else { a };
    assert(cache_slot(i, j) == cache_slot(a, b));
    assert(slot_value(memo, i, j) > 0);
    let m = midpoint(pal[a as int], pal[b as int]);
    assert(midpoint(pal[b as int], pal[a as int]) == m);
    if edge_pair(pal, a as int, b as int) {
        let k = choose|k: int| 0 <= k < pal.len() && k != a && k != b && #[trigger] pal[k] == m;
        assert(pal[k] == midpoint(pal[i as int], pal[j as int]));
        assert(pal[k] == midpoint(pal[j as int], pal[i as int]));
    }
}

/// Neighbours separated from the center by a palette color (the midpoint of the two
/// colors is another palette entry) are not blended in: given the remembered weights
/// that `undith_into` guarantees at the end of a pass over a palette of at most 256
/// colors, the result lies within the range of the center and of the other
/// non-transparent neighbours alone.
pub proof fn lemma_edge_neighbours_not_blended<P: PixAlphaAble>(
    c: Region<P>, memo: Seq<i8>, x: int, y: int, lo: Rgb8, hi: Rgb8,
)
    requires
        c.fits(),
        c.lookups_ok(),
        memo.len() == 65536,
        c.pal.len() <= 256,
        memo_facts(c.pal, c.result(memo).1),
        0 <= x < c.width,
        0 <= y < c.height,
        !c.skipped(x, y),
        c.src.w() > 0,
        c.src.h() > 0,
        within(c.pal[c.center_px(x, y).spec_pal_index() as int], lo, hi),
        forall|k: int| 0 <= k < 8 && !(#[trigger] c.neighbours_of(x, y)[k]).spec_is_transparent(c.transparent)
            && !edge_pair(c.pal, c.center_px(x, y).spec_pal_index() as int, c.neighbours_of(x, y)[k].spec_pal_index() as int)
            ==> within(c.pal[c.neighbours_of(x, y)[k].spec_pal_index() as int], lo, hi),
    ensures
        within(c.result(memo).0[c.target(x, y)], lo, hi),
{
    assert(c.pixel_ok(x, y));
    let center = c.center_px(x, y).spec_pal_index();
    let mf = c.result(memo).1;
    assert forall|k: int| 0 <= k < 8 && !(#[trigger] c.neighbours_of(x, y)[k]).spec_is_transparent(c.transparent)
        && mf[cache_slot(center, c.neighbours_of(x, y)[k].spec_pal_index()) as int] > 0
        implies within(c.pal[c.neighbours_of(x, y)[k].spec_pal_index() as int], lo, hi) by {
        lemma_positive_weight_not_edge(c.pal, mf, center, c.neighbours_of(x, y)[k].spec_pal_index());
    }
    lemma_output_within_blended_colors(c, memo, x, y, lo, hi);
}

/// Blends one pixel of the rectangle into `out`.
fn undither_pixel<P: PixAlphaAble + Copy>(
    src: &Image<P>,
    transparent: Option<u8>,
    sim: &mut Similarity,
    prew: &Image<u16>,
    left: usize,
    top: usize,
    x: usize,
    y: usize,
    out: &mut Image<Rgb8>,
    Ghost(c): Ghost<Region<P>>,
)
    requires
        c.src == *src,
        c.transparent == transparent,
        c.pal == old(sim).colors(),
        c.left == left,
        c.top == top,
        c.base.w() == old(out).w(),
        c.base.h() == old(out).h(),
        src.wf(),
        src.w() > 0,
        src.h() > 0,
        old(out).wf(),
        old(sim).wf(),
        prew.wf(),
        prew.w() == c.width,
        prew.h() == c.height,
        forall|i: int, j: int| 0 <= i < c.width && 0 <= j < c.height ==> #[trigger] prew.at(i, j) == c.edge_at(i, j),
        x < c.width,
        y < c.height,
        left + c.width <= old(out).w(),
        top + c.height <= old(out).h(),
        c.pixel_ok(x as int, y as int),
    ensures
        final(out).wf(),
        final(out).w() == old(out).w(),
        final(out).h() == old(out).h(),
        final(sim).wf(),
        final(sim).colors() == old(sim).colors(),
        (final(out).pixels(), final(sim).memo()) == c.scan_pixel((old(out).pixels(), old(sim).memo()), x as int, y as int),
{
    let (prev, curr, next) = src.neighbours(top, left + x, top + y);
    let center = curr.curr;
    if center.is_transparent(transparent) {
        return;
    }
    let prewitt = prew.get(x, y);
    let center_weight: u32 = if prewitt > PREWITT_LOW_THRESHOLD {
        if prewitt > PREWITT_HIGH_THRESHOLD {
            return;
        }
        EDGE_CENTER_WEIGHT
    } else {
        FLAT_CENTER_WEIGHT
    };
    let center_index = center.pal_index();
    let ghost pal = sim.colors();
    let ghost memo0 = sim.memo();
    proof {
        let col = pal[center_index as int];
        assert(col.r * center_weight <= u32::MAX && col.g * center_weight <= u32::MAX
            && col.b * center_weight <= u32::MAX) by (nonlinear_arith)
            requires
                col.r <= 255,
                col.g <= 255,
                col.b <= 255,
                center_weight <= 24,
        ;
    }
    let mut acc = Acc::new(center_index, center_weight, transparent, sim);
    let nbs: [P; 8] = [prev.prev, prev.curr, prev.next, curr.prev, curr.next, next.prev, next.curr, next.next];
    let ghost pxs = c.neighbours_of(x as int, y as int);
    assert(nbs@ =~= pxs);
    let ghost b0 = acc.blend();
    assert(nbs@.take(0) =~= Seq::<P>::empty());
    let mut k: usize = 0;
    while k < 8
        invariant
            k <= 8,
            nbs@ == pxs,
            acc.wf(),
            sim.wf(),
            sim.colors() == pal,
            acc.center() == center_index,
            acc.transparent_index() == transparent,
            center_index < pal.len(),
            acc.blend().weight <= center_weight + 8 * k,
            acc.blend().weight >= center_weight,
            0 < center_weight <= 24,
            forall|j: int|
                0 <= j < 8 && !(#[trigger] pxs[j]).spec_is_transparent(transparent)
                    ==> valid_pair(pal.len() as int, center_index, pxs[j].spec_pal_index()),
            (acc.blend(), sim.memo()) == add_all(b0, center_index, transparent, pal, memo0, pxs.take(k as int)),
        decreases 8 - k,
    {
        proof {
            let px = pxs[k as int];
            if !px.spec_is_transparent(transparent) {
                let index = px.spec_pal_index();
                crate::acc::lemma_compare_model_weight(pal, sim.memo(), center_index, index);
                let w = crate::acc::compare_model(pal, sim.memo(), center_index, index).0;
                let col = pal[index as int];
                let b = acc.blend();
                assert(b.r + col.r * w <= u32::MAX && b.g + col.g * w <= u32::MAX && b.b + col.b * w <= u32::MAX)
                    by (nonlinear_arith)
                    requires
                        b.r <= 255 * b.weight,
                        b.g <= 255 * b.weight,
                        b.b <= 255 * b.weight,
                        b.weight <= 88,
                        col.r <= 255,
                        col.g <= 255,
                        col.b <= 255,
                        0 <= w <= 8,
                ;
            }
        }
        acc.add(sim, nbs[k]);
        assert(pxs.take(k + 1).drop_last() =~= pxs.take(k as int));
        k += 1;
    }
    assert(pxs.take(8) =~= pxs);
    let color = acc.result();
    out.set(left + x, top + y, color);
}

/// One blending pass over the `width * height` rectangle at `(left, top)`.
fn undither_region<P: PixAlphaAble + Copy>(
    src: &Image<P>,
    transparent: Option<u8>,
    sim: &mut Similarity,
    left: usize,
    top: usize,
    width: usize,
    height: usize,
    out: &mut Image<Rgb8>,
    Ghost(c): Ghost<Region<P>>,
)
    requires
        c.src == *src,
        c.transparent == transparent,
        c.pal == old(sim).colors(),
        c.base == *old(out),
        c.left == left,
        c.top == top,
        c.width == width,
        c.height == height,
        src.wf(),
        old(out).wf(),
        old(sim).wf(),
        0 < width,
        left + width <= old(out).w(),
        top + height <= old(out).h(),
        old(out).w() <= u32::MAX,
        old(out).h() <= u32::MAX,
        c.lookups_ok(),
    ensures
        final(out).wf(),
        final(out).w() == old(out).w(),
        final(out).h() == old(out).h(),
        final(sim).wf(),
        final(sim).colors() == old(sim).colors(),
        (final(out).pixels(), final(sim).memo()) == c.result(old(sim).memo()),
{
    let sub = out.sub_image(left, top, width, height);
    proof {
        lemma_rgb_gray_fits(&sub);
    }
    let prew = prewitt_squared_img(&sub);
    assert forall|i: int, j: int| 0 <= i < width && 0 <= j < height implies #[trigger] prew.at(i, j) == c.edge_at(i, j) by {
        assert forall|a: int, b: int| #![auto] gray_at(&sub, a, b) == c.region_gray(a, b) by {
            assert(sub.at_clamped(a, b) == sub.at(clamp(a, width as int), clamp(b, height as int)));
        }
    }
    if src.width() == 0 || src.height() == 0 {
        return;
    }
    let ghost memo0 = sim.memo();
    let ghost init = (out.pixels(), memo0);
    let mut y: usize = 0;
    while y < height
        invariant
            y <= height,
            c.src == *src,
            c.transparent == transparent,
            c.pal == sim.colors(),
            c.left == left,
            c.top == top,
            c.width == width,
            c.height == height,
            c.base.w() == out.w(),
            c.base.h() == out.h(),
            c.base.wf(),
            src.wf(),
            src.w() > 0,
            src.h() > 0,
            out.wf(),
            sim.wf(),
            prew.wf(),
            prew.w() == width,
            prew.h() == height,
            forall|i: int, j: int| 0 <= i < width && 0 <= j < height ==> #[trigger] prew.at(i, j) == c.edge_at(i, j),
            left + width <= out.w(),
            top + height <= out.h(),
            c.lookups_ok(),
            init == (c.base.pixels(), memo0),
            (out.pixels(), sim.memo()) == c.scan_rows(init, y as nat),
        decreases height - y,
    {
        let mut x: usize = 0;
        while x < width
            invariant
                x <= width,
                y < height,
                c.src == *src,
                c.transparent == transparent,
                c.pal == sim.colors(),
                c.left == left,
                c.top == top,
                c.width == width,
                c.height == height,
                c.base.w() == out.w(),
                c.base.h() == out.h(),
                src.wf(),
                src.w() > 0,
                src.h() > 0,
                out.wf(),
                sim.wf(),
                prew.wf(),
                prew.w() == width,
                prew.h() == height,
                forall|i: int, j: int| 0 <= i < width && 0 <= j < height ==> #[trigger] prew.at(i, j) == c.edge_at(i, j),
                left + width <= out.w(),
                top + height <= out.h(),
                c.lookups_ok(),
                (out.pixels(), sim.memo()) == c.scan_row(c.scan_rows(init, y as nat), y as int, x as nat),
            decreases width - x,
        {
            assert(c.pixel_ok(x as int, y as int));
            undither_pixel(src, transparent, sim, &prew, left, top, x, y, out, Ghost(c));
            x += 1;
        }
        y += 1;
    }
}

/// Removes dithering from paletted images, using a palette of its own or one
/// given with each image.
pub struct Undither {
    global_pal: Option<Pal>,
}

impl Undither {
    /// The palette given at creation, if any, with its comparer's state.
    pub closed spec fn global(&self) -> Option<Pal> {
        self.global_pal
    }

    pub open spec fn wf(&self) -> bool {
        self.global() matches Some(p) ==> p.wf()
    }

    /// An undither with the given raw `r, g, b` palette, or none.
    pub fn new(global_raw_pal: Option<&[u8]>) -> (u: Self)
        requires
            global_raw_pal matches Some(bytes) ==> bytes@.len() % 3 == 0 && bytes@.len() / 3 < u32::MAX / 2,
        ensures
            u.wf(),
            global_raw_pal is None ==> u.global() is None,
            global_raw_pal matches Some(bytes) ==> u.global() matches Some(p)
                && p.colors() == bytes_to_colors(bytes@) && p.sim().memo() == initial_memo(),
    {
        let global_pal = match global_raw_pal {
            Some(bytes) => Some(Pal::new(bytes)),
            None => None,
        };
        Undither { global_pal }
    }
}


/// The expanded rectangle that a pass at `(left, top, width, height)` works on.
pub open spec fn pass_region<P>(
    src: Image<P>, transparent: Option<u8>, pal: Seq<Rgb8>, base: Image<Rgb8>,
    left: usize, top: usize, width: usize, height: usize,
) -> Region<P> {
    let (l, t, w, h) = expand_rect(left as int, top as int, width as int, height as int, base.w() as int, base.h() as int);
    Region { src, transparent, pal, base, left: l as nat, top: t as nat, width: w as nat, height: h as nat }
}

/// The palette given with an image, as a value.
pub open spec fn local_value(local_pal: Option<&mut Pal>) -> Option<Pal> {
    match local_pal {
        Some(p) => Some(*p),
        None => None,
    }
}

/// The palette a pass uses: the one given with the image, else the undither's own.
pub open spec fn pal_in_use(local: Option<Pal>, global: Option<Pal>) -> Pal {
    match local {
        Some(p) => p,
        None => global.unwrap(),
    }
}

/// The output pixels and remembered weights of a pass with palette `pal`.
pub open spec fn pass_result<P: PixAlphaAble>(
    src: Image<P>, transparent: Option<u8>, pal: Pal, base: Image<Rgb8>,
    left: usize, top: usize, width: usize, height: usize,
) -> (Seq<Rgb8>, Seq<i8>) {
    pass_region(src, transparent, pal.colors(), base, left, top, width, height).result(pal.sim().memo())
}

/// A palette given with the image takes precedence: the undither's own palette, or its
/// absence, plays no part in the pass.
pub proof fn lemma_local_palette_takes_precedence<P: PixAlphaAble>(
    local: Pal, global1: Option<Pal>, global2: Option<Pal>,
    src: Image<P>, transparent: Option<u8>, base: Image<Rgb8>,
    left: usize, top: usize, width: usize, height: usize,
)
    ensures
        pal_in_use(Some(local), global1) == local,
        pass_result(src, transparent, pal_in_use(Some(local), global1), base, left, top, width, height)
            == pass_result(src, transparent, pal_in_use(Some(local), global2), base, left, top, width, height),
{
}

/// The undither's own palette, as `Undither::new` builds it from raw bytes, gives the
/// same pass as a palette built by `Pal::new` from the same bytes and given with the
/// image: both hold the colors of the byte triples and fresh remembered weights.
pub proof fn lemma_global_palette_as_built<P: PixAlphaAble>(
    bytes: Seq<u8>, global: Pal, local: Pal, other: Option<Pal>,
    src: Image<P>, transparent: Option<u8>, base: Image<Rgb8>,
    left: usize, top: usize, width: usize, height: usize,
)
    requires
        global.colors() == bytes_to_colors(bytes),
        global.sim().memo() == initial_memo(),
        local.colors() == bytes_to_colors(bytes),
        local.sim().memo() == initial_memo(),
    ensures
        pass_result(src, transparent, pal_in_use(None, Some(global)), base, left, top, width, height)
            == pass_result(src, transparent, pal_in_use(Some(local), other), base, left, top, width, height),
{
}

impl Undither {
    /// Blends, in `inout`, each pixel of the rectangle grown by one pixel on every side
    /// with those neighbours in `src_img` whose palette colors are close enough that the
    /// palette holds no color in between (see `Region::result`). Transparent pixels and
    /// strong edges are left as they are; everything outside the rectangle too.
    pub fn undith_into<P: PixAlphaAble + Copy>(
        &mut self,
        src_img: &Image<P>,
        transparent: Option<u8>,
        local_pal: Option<&mut Pal>,
        left: usize,
        top: usize,
        width: usize,
        height: usize,
        inout: &mut Image<Rgb8>,
    )
        requires
            old(self).wf(),
            local_pal matches Some(p) ==> p.wf(),
            local_pal is Some || old(self).global() is Some,
            src_img.wf(),
            old(inout).wf(),
            old(inout).w() <= u32::MAX,
            old(inout).h() <= u32::MAX,
            left + width + 1 <= usize::MAX,
            top + height + 1 <= usize::MAX,
            ({
                let c = pass_region(*src_img, transparent, pal_in_use(local_value(local_pal), old(self).global()).colors(),
                    *old(inout), left, top, width, height);
                &&& 0 < c.width
                &&& c.left + c.width <= old(inout).w()
                &&& c.top + c.height <= old(inout).h()
                &&& c.lookups_ok()
            }),
        ensures
            final(inout).wf(),
            final(inout).w() == old(inout).w(),
            final(inout).h() == old(inout).h(),
            ({
                let pal = pal_in_use(local_value(local_pal), old(self).global());
                let c = pass_region(*src_img, transparent, pal.colors(), *old(inout), left, top, width, height);
                let (out, memo) = c.result(pal.sim().memo());
                &&& final(inout).pixels() == out
                &&& memo_extends(pal.sim().memo(), memo)
                &&& local_pal matches Some(p) ==> {
                    &&& (*final(p)).wf()
                    &&& (*final(p)).colors() == (*p).colors()
                    &&& (*final(p)).sim().memo() == memo
                    &&& final(self).global() == old(self).global()
                }
                &&& local_pal is None ==> {
                    &&& final(self).wf()
                    &&& final(self).global() matches Some(g) && g.colors() == pal.colors() && g.sim().memo() == memo
                }
            }),
    {
        let (l, t, w, h) = expand_by_1(left, top, width, height, inout.width(), inout.height());
        match local_pal {
            Some(p) => {
                let ghost c = pass_region(*src_img, transparent, p.colors(), *inout, left, top, width, height);
                proof {
                    lemma_pass_keeps_weights(c, p.sim().memo());
                }
                let sim = p.similarity();
                undither_region(src_img, transparent, sim, l, t, w, h, inout, Ghost(c));
            },
            None => {
                let taken = self.global_pal.take();
                match taken {
                    Some(mut g) => {
                        let ghost c = pass_region(*src_img, transparent, g.colors(), *inout, left, top, width, height);
                        proof {
                            lemma_pass_keeps_weights(c, g.sim().memo());
                        }
                        let sim = g.similarity();
                        undither_region(src_img, transparent, sim, l, t, w, h, inout, Ghost(c));
                        self.global_pal = Some(g);
                    },
                    None => {},
                }
            },
        }
    }
}

} // verus!
