use vstd::prelude::*;
use crate::color::{Rgb8, Rgb32, color_distance, midpoint, diff, average, lemma_color_distance_bounds};
use crate::palalpha::PixAlphaAble;
use crate::palette_tree::{
    PaletteTree, ExceptTheseTwo, palette_tree_items, search_except, palette_tree_new,
    palette_tree_search_except,
};

verus! {

/// Number of cached entries: one for every pair of 8-bit palette indices.
pub const CACHE_SIZE: usize = 65536;

/// Where the weight of a pair of palette indices is remembered: the smaller index
/// shifted up by 8 bits, or-ed with the larger one.
pub open spec fn cache_slot(index1: usize, index2: usize) -> usize {
    if index1 < index2 {
        index1 << 8 | index2
    } else {
        index2 << 8 | index1
    }
}

/// Both indices name palette entries and their cache slot lies in the cache.
pub open spec fn valid_pair(pal_len: int, index1: usize, index2: usize) -> bool {
    &&& index1 < pal_len
    &&& index2 < pal_len
    &&& cache_slot(index1, index2) < 65536
}

/// Blending weight for a neighbour, given the distance `min_diff` from the midpoint of
/// the two colors to the nearest other palette color, and the distance `distance` from
/// that midpoint to the center color. A near palette color marks an edge (weight 0).
pub open spec fn weight_class(min_diff: int, distance: int) -> int {
    if min_diff >= distance * 2 {
        8
    } else if min_diff >= distance {
        6
    } else if min_diff * 3 >= distance * 2 {
        1
    } else {
        0
    }
}

/// The distance at which the search for an in-between palette color starts.
pub open spec fn search_start() -> u32 {
    0x8000_0000u32
}

/// The weight that comparing palette entries `index1` (center) and `index2`
/// (neighbour) computes.
pub open spec fn pair_weight(pal: Seq<Rgb8>, index1: int, index2: int) -> int {
    let p1 = pal[index1];
    let p2 = pal[index2];
    let avg = midpoint(p1, p2);
    let min_diff = search_except(pal, avg, index1 as usize, index2 as usize, search_start());
    weight_class(min_diff as int, color_distance(avg, p1))
}

/// A comparison's weight and the remembered weights afterwards: a remembered
/// weight is reused, otherwise the computed one is remembered for the pair.
pub open spec fn compare_model(pal: Seq<Rgb8>, memo: Seq<i8>, index1: usize, index2: usize) -> (int, Seq<i8>) {
    let slot = cache_slot(index1, index2) as int;
    if memo[slot] >= 0 {
        (memo[slot] as int, memo)
    } else {
        let w = pair_weight(pal, index1 as int, index2 as int);
        (w, memo.update(slot, w as i8))
    }
}

/// The remembered weights of a fresh comparer: 7 for a color against itself
/// (entries 0 to 254), nothing (-1) elsewhere.
pub open spec fn initial_memo() -> Seq<i8> {
    Seq::new(65536, |k: int| if k % 257 == 0 && k / 257 < 255 { 7i8 } else { -1i8 })
}

/// The weight class as a number: 8, 6, 1 or 0.
pub fn similarity_weight(min_diff: u32, distance: u32) -> (w: u8)
    ensures
        w == weight_class(min_diff as int, distance as int),
{
    let m = min_diff as u64;
    let d = distance as u64;
    if m >= d * 2 {
        8
    } else if m >= d {
        6
    } else if m * 3 >= d * 2 {
        1
    } else {
        0
    }
}

/// The values a cache entry can hold: -1 (nothing yet), a weight class, or 7.
pub open spec fn memo_value_ok(v: i8) -> bool {
    v == -1 || v == 0 || v == 1 || v == 6 || v == 7 || v == 8
}

/// Every weight remembered in `m1` is still remembered, unchanged, in `m2`.
pub open spec fn memo_extends(m1: Seq<i8>, m2: Seq<i8>) -> bool {
    &&& m1.len() == m2.len()
    &&& forall|k: int| 0 <= k < m1.len() && m1[k] >= 0 ==> #[trigger] m2[k] == m1[k]
}

/// What the search guarantees of the weight `w` computed for center entry `a` and
/// neighbour entry `b` (both entries of `pal`): with no third palette entry the
/// colors blend fully (8); when
/// another entry is exactly the midpoint of the two colors, and the midpoint is not
/// the center's color, the border is an edge (0).
pub open spec fn weight_facts(pal: Seq<Rgb8>, a: int, b: int, w: int) -> bool {
    &&& (a != b && pal.len() <= 2) ==> w == 8
    &&& (midpoint(pal[a], pal[b]) != pal[a] && exists|k: int|
        0 <= k < pal.len() && k != a && k != b && #[trigger] pal[k] == midpoint(pal[a], pal[b])) ==> w == 0
}

/// The midpoint of the colors of entries `a` and `b` is neither of them and is the
/// color of a third entry: the palette holds a color between the two.
pub open spec fn edge_pair(pal: Seq<Rgb8>, a: int, b: int) -> bool {
    let m = midpoint(pal[a], pal[b]);
    &&& m != pal[a]
    &&& m != pal[b]
    &&& exists|k: int| 0 <= k < pal.len() && k != a && k != b && #[trigger] pal[k] == m
}

/// The remembered weight of the pair `(i, j)`.
pub open spec fn slot_value(memo: Seq<i8>, i: usize, j: usize) -> i8 {
    memo[cache_slot(i, j) as int]
}

/// Every remembered weight of a pair of entries meets `weight_facts` for one of the
/// two orders (the first comparison of the pair decides which).
pub open spec fn memo_facts(pal: Seq<Rgb8>, memo: Seq<i8>) -> bool {
    forall|i: usize, j: usize|
        i <= j < pal.len() && #[trigger] slot_value(memo, i, j) >= 0 ==> weight_facts(
            pal, i as int, j as int, slot_value(memo, i, j) as int,
        ) || weight_facts(pal, j as int, i as int, slot_value(memo, i, j) as int)
}

/// For entries below 256 the smaller index in the high byte and the larger in the
/// low byte name a pair uniquely.
proof fn lemma_slot_injective(i: usize, j: usize, a: usize, b: usize)
    requires
        i <= j < 256,
        a <= b < 256,
        cache_slot(i, j) == cache_slot(a, b),
    ensures
        i == a,
        j == b,
{
    assert(cache_slot(i, j) == i << 8 | j);
    assert(cache_slot(a, b) == a << 8 | b);
    assert(i == a && j == b) by (bit_vector)
        requires
            i < 256,
            j < 256,
            a < 256,
            b < 256,
            (i << 8 | j) == (a << 8 | b),
    ;
}

proof fn lemma_midpoint_self(c: Rgb8)
    ensures
        midpoint(c, c) == c,
{
}

proof fn lemma_initial_memo_facts(pal: Seq<Rgb8>)
    requires
        pal.len() <= 256,
    ensures
        memo_facts(pal, initial_memo()),
{
    assert forall|i: usize, j: usize|
        i <= j < pal.len() && #[trigger] slot_value(initial_memo(), i, j) >= 0 implies weight_facts(
            pal, i as int, j as int, slot_value(initial_memo(), i, j) as int,
        ) || weight_facts(pal, j as int, i as int, slot_value(initial_memo(), i, j) as int) by {
        let s = cache_slot(i, j);
        assert(s == i * 256 + j) by (bit_vector)
            requires
                i <= j,
                j < 256,
                s == (if i < j { i << 8 | j } else { j << 8 | i }),
        ;
        let k = s as int;
        if i < j {
            assert(!(k % 257 == 0)) by (nonlinear_arith)
                requires
                    k == i * 256 + j,
                    0 <= i < j < 256,
            ;
        }
        assert(i == j);
        lemma_midpoint_self(pal[i as int]);
    }
}

proof fn lemma_weight_class_range(min_diff: int, distance: int)
    ensures
        0 <= weight_class(min_diff, distance) <= 8,
{
}

/// Decides how much two palette colors may be blended, remembering each answer.
pub struct Similarity {
    pal: Vec<Rgb8>,
    cache: Vec<i8>,
    vp: PaletteTree,
}

impl Similarity {
    /// The palette's colors.
    pub closed spec fn colors(&self) -> Seq<Rgb8> {
        self.pal@
    }

    /// The remembered weights, indexed by `cache_slot` (-1: none yet).
    pub closed spec fn memo(&self) -> Seq<i8> {
        self.cache@
    }

    /// The colors the search tree was built from.
    pub closed spec fn tree_colors(&self) -> Seq<Rgb8> {
        palette_tree_items(self.vp)
    }

    pub open spec fn wf(&self) -> bool {
        &&& self.memo().len() == 65536
        &&& self.tree_colors() == self.colors()
        &&& forall|k: int| 0 <= k < 65536 ==> memo_value_ok(#[trigger] self.memo()[k])
        &&& self.colors().len() <= 256 ==> memo_facts(self.colors(), self.memo())
    }

    /// Pairs of indices that `compare` accepts: both name palette entries and
    /// their cache slot lies in the cache.
    pub open spec fn pair_ok(&self, index1: usize, index2: usize) -> bool {
        valid_pair(self.colors().len() as int, index1, index2)
    }

    pub fn new(pal: Vec<Rgb8>) -> (s: Self)
        requires
            pal.len() < u32::MAX / 2,
        ensures
            s.wf(),
            s.colors() == pal@,
            s.memo() == initial_memo(),
    {
        let vp = palette_tree_new(&pal);
        let mut cache: Vec<i8> = vec![-1i8; CACHE_SIZE];
        assert(cache@ =~= Seq::new(65536, |k: int| -1i8));
        let mut i: usize = 0;
        while i < 255
            invariant
                i <= 255,
                cache.len() == 65536,
                forall|k: int|
                    0 <= k < 65536 ==> #[trigger] cache@[k] == (if k % 257 == 0 && k / 257 < i { 7i8 } else { -1i8 }),
            decreases 255 - i,
        {
            let slot = i << 8 | i;
            assert(slot == i * 257) by (bit_vector)
                requires
                    i < 256,
                    slot == i << 8 | i,
            ;
            cache.set(slot, 7);
            assert forall|k: int| 0 <= k < 65536 implies #[trigger] cache@[k] == (if k % 257 == 0 && k / 257 < i + 1 { 7i8 } else { -1i8 }) by {
                if k == slot {
                    assert(k % 257 == 0 && k / 257 == i) by (nonlinear_arith)
                        requires
                            k == i * 257,
                    ;
                } else {
                    if k % 257 == 0 && k / 257 == i {
                        assert(k == i * 257) by (nonlinear_arith)
                            requires
                                k % 257 == 0,
                                k / 257 == i,
                                0 <= k,
                        ;
                    }
                }
            }
            i += 1;
        }
        assert(cache@ =~= initial_memo());
        if pal.len() <= 256 {
            proof {
                lemma_initial_memo_facts(pal@);
            }
        }
        Similarity { vp, pal, cache }
    }

    /// The color of palette entry `index1`.
    pub fn pal(&self, index1: usize) -> (c: Rgb8)
        requires
            index1 < self.colors().len(),
        ensures
            c == self.colors()[index1 as int],
    {
        self.pal[index1]
    }

    /// How much palette entry `index2` may be blended into a pixel of entry `index1`,
    /// and the color of `index2`.
    pub fn compare(&mut self, index1: usize, index2: usize) -> (r: (u32, Rgb8))
        requires
            old(self).wf(),
            old(self).pair_ok(index1, index2),
        ensures
            final(self).wf(),
            final(self).colors() == old(self).colors(),
            (r.0 as int, final(self).memo()) == compare_model(old(self).colors(), old(self).memo(), index1, index2),
            r.1 == old(self).colors()[index2 as int],
            r.0 <= 8,
            r.0 == 0 || r.0 == 1 || r.0 == 6 || r.0 == 7 || r.0 == 8,
            ({
                let c = old(self).colors();
                let m = midpoint(c[index1 as int], c[index2 as int]);
                old(self).memo()[cache_slot(index1, index2) as int] < 0 && m != c[index1 as int]
                    && (exists|k: int| 0 <= k < c.len() && k != index1 && k != index2 && #[trigger] c[k] == m)
                    ==> r.0 == 0
            }),
            old(self).memo()[cache_slot(index1, index2) as int] < 0 && old(self).colors().len() <= 2
                && index1 != index2 ==> r.0 == 8,
            old(self).memo()[cache_slot(index1, index2) as int] < 0 ==> weight_facts(
                old(self).colors(), index1 as int, index2 as int, r.0 as int),
            old(self).colors().len() <= 256 ==> weight_facts(old(self).colors(), index1 as int, index2 as int, r.0 as int)
                || weight_facts(old(self).colors(), index2 as int, index1 as int, r.0 as int),
            memo_extends(old(self).memo(), final(self).memo()),
            ({
                let c = old(self).colors();
                let m = midpoint(c[index1 as int], c[index2 as int]);
                let d = search_except(c, m, index1, index2, 0x8000_0000u32) as int;
                let e = color_distance(m, c[index1 as int]);
                old(self).memo()[cache_slot(index1, index2) as int] < 0 ==> r.0 as int == if d >= 2 * e {
                    8int
                } else if d >= e {
                    6int
                } else if 3 * d >= 2 * e {
                    1int
                } else {
                    0int
                }
            }),
            ({
                let c = old(self).colors();
                let m = midpoint(c[index1 as int], c[index2 as int]);
                old(self).memo()[cache_slot(index1, index2) as int] < 0 && (forall|k: int|
                    0 <= k < c.len() && k != index1 && k != index2
                        ==> color_distance(m, #[trigger] c[k]) >= 2 * color_distance(m, c[index1 as int]))
                    ==> r.0 == 8
            }),
    {
        let ghost lo = if index1 <= index2 { index1 } else { index2 };
        let ghost hi = if index1 <= index2 { index2 } else { index1 };
        assert(cache_slot(lo, hi) == cache_slot(index1, index2));
        let pos = if index1 < index2 { index1 << 8 | index2 } else { index2 << 8 | index1 };
        let cached = self.cache[pos];
        let p2 = self.pal[index2];
        if cached >= 0 {
            proof {
                if self.colors().len() <= 256 {
                    assert(slot_value(self.memo(), lo, hi) >= 0);
                }
            }
            return (cached as u32, p2);
        }
        let p1 = self.pal[index1];
        let avg = average(p1, p2);
        let distance = diff(avg, p1);
        assert((1u32 << 31) == search_start()) by (bit_vector);
        let min_diff = palette_tree_search_except(
            &self.vp,
            avg,
            ExceptTheseTwo { distance: 1 << 31, index1: index1, index2: index2 },
        );
        proof {
            lemma_color_distance_bounds(avg, p1);
            crate::color::lemma_color_distance_symmetric_zero(avg, p1);
        }
        let res = similarity_weight(min_diff, distance);
        let ghost old_memo = self.cache@;
        self.cache.set(pos, res as i8);
        proof {
            assert(weight_facts(self.pal@, index1 as int, index2 as int, res as int));
            if self.pal@.len() <= 256 {
                assert forall|i: usize, j: usize|
                    i <= j < self.pal@.len() && #[trigger] slot_value(self.cache@, i, j) >= 0 implies weight_facts(
                        self.pal@, i as int, j as int, slot_value(self.cache@, i, j) as int,
                    ) || weight_facts(self.pal@, j as int, i as int, slot_value(self.cache@, i, j) as int) by {
                    if cache_slot(i, j) == pos {
                        lemma_slot_injective(i, j, lo, hi);
                    } else {
                        let sij = cache_slot(i, j);
                        assert(sij < 65536) by (bit_vector)
                            requires
                                i < 256,
                                j < 256,
                                sij == (if i < j { i << 8 | j } else { j << 8 | i }),
                        ;
                        assert(slot_value(self.cache@, i, j) == slot_value(old_memo, i, j));
                    }
                }
            }
        }
        return (res as u32, p2);
    }
}

/// Channel sums and total weight of a blend, as integers.
pub struct Blend {
    pub r: int,
    pub g: int,
    pub b: int,
    pub weight: int,
}

/// `color` blended in with weight `w`.
pub open spec fn blend_add(b: Blend, color: Rgb8, w: int) -> Blend {
    Blend { r: b.r + color.r * w, g: b.g + color.g * w, b: b.b + color.b * w, weight: b.weight + w }
}

/// A blend of `color` alone with weight `w`.
pub open spec fn blend_of(color: Rgb8, w: int) -> Blend {
    Blend { r: color.r * w, g: color.g * w, b: color.b * w, weight: w }
}

/// The effect of adding a pixel to a blend centred on palette entry `center`:
/// transparent pixels are skipped; others are weighed against the center.
pub open spec fn add_model<P: PixAlphaAble>(
    b: Blend, center: usize, transparent: Option<u8>, pal: Seq<Rgb8>, memo: Seq<i8>, px: P,
) -> (Blend, Seq<i8>) {
    if px.spec_is_transparent(transparent) {
        (b, memo)
    } else {
        let index = px.spec_pal_index();
        let (w, memo2) = compare_model(pal, memo, center, index);
        if w > 0 {
            (blend_add(b, pal[index as int], w), memo2)
        } else {
            (b, memo2)
        }
    }
}

/// The color of a blend: each channel sum divided by the total weight.
pub open spec fn blend_color(b: Blend) -> Rgb8 {
    Rgb8 { r: (b.r / b.weight) as u8, g: (b.g / b.weight) as u8, b: (b.b / b.weight) as u8 }
}

/// Accumulates a weighted blend of a center pixel and its similar neighbours.
pub struct Acc {
    acc: Rgb32,
    center_index: usize,
    weight: u32,
    transparent: Option<u8>,
}

impl Acc {
    pub closed spec fn blend(&self) -> Blend {
        Blend { r: self.acc.r as int, g: self.acc.g as int, b: self.acc.b as int, weight: self.weight as int }
    }

    pub closed spec fn center(&self) -> usize {
        self.center_index
    }

    pub closed spec fn transparent_index(&self) -> Option<u8> {
        self.transparent
    }

    /// Channel sums stay within 255 times the weight, so the blend is a color.
    pub open spec fn wf(&self) -> bool {
        &&& 0 <= self.blend().r <= 255 * self.blend().weight
        &&& 0 <= self.blend().g <= 255 * self.blend().weight
        &&& 0 <= self.blend().b <= 255 * self.blend().weight
        &&& self.blend().weight <= u32::MAX
    }

    /// Starts a blend of palette entry `center_index` with weight `weight`.
    pub fn new(center_index: usize, weight: u32, transparent: Option<u8>, similarity: &Similarity) -> (a: Self)
        requires
            center_index < similarity.colors().len(),
            similarity.colors()[center_index as int].r * weight <= u32::MAX,
            similarity.colors()[center_index as int].g * weight <= u32::MAX,
            similarity.colors()[center_index as int].b * weight <= u32::MAX,
        ensures
            a.wf(),
            a.blend() == blend_of(similarity.colors()[center_index as int], weight as int),
            a.center() == center_index,
            a.transparent_index() == transparent,
    {
        let px = similarity.pal(center_index);
        assert(0 <= px.r * weight <= 255 * weight && 0 <= px.g * weight <= 255 * weight
            && 0 <= px.b * weight <= 255 * weight) by (nonlinear_arith)
            requires
                px.r <= 255,
                px.g <= 255,
                px.b <= 255,
        ;
        Acc {
            transparent: transparent,
            center_index: center_index,
            weight: weight,
            acc: Rgb32 { r: px.r as u32 * weight, g: px.g as u32 * weight, b: px.b as u32 * weight },
        }
    }

    /// Blends in a neighbouring pixel, unless it is transparent, with the weight
    /// that `similarity` gives it against the center.
    pub fn add<P: PixAlphaAble>(&mut self, similarity: &mut Similarity, px: P)
        requires
            old(self).wf(),
            old(similarity).wf(),
            old(self).center() < old(similarity).colors().len(),
            !px.spec_is_transparent(old(self).transparent_index()) ==> old(similarity).pair_ok(old(self).center(), px.spec_pal_index()),
            !px.spec_is_transparent(old(self).transparent_index()) ==> ({
                let nb = add_model(
                    old(self).blend(), old(self).center(), old(self).transparent_index(),
                    old(similarity).colors(), old(similarity).memo(), px,
                ).0;
                &&& nb.r <= u32::MAX
                &&& nb.g <= u32::MAX
                &&& nb.b <= u32::MAX
                &&& nb.weight <= u32::MAX
            }),
        ensures
            final(self).wf(),
            final(similarity).wf(),
            final(similarity).colors() == old(similarity).colors(),
            final(self).center() == old(self).center(),
            final(self).transparent_index() == old(self).transparent_index(),
            old(self).blend().weight <= final(self).blend().weight <= old(self).blend().weight + 8,
            memo_extends(old(similarity).memo(), final(similarity).memo()),
            (final(self).blend(), final(similarity).memo()) == add_model(
                old(self).blend(), old(self).center(), old(self).transparent_index(),
                old(similarity).colors(), old(similarity).memo(), px,
            ),
            px.spec_is_transparent(old(self).transparent_index()) ==> final(self).blend() == old(self).blend()
                && final(similarity).memo() == old(similarity).memo(),
            !px.spec_is_transparent(old(self).transparent_index()) ==> ({
                let (w, m) = compare_model(old(similarity).colors(), old(similarity).memo(), old(self).center(),
                    px.spec_pal_index());
                let col = old(similarity).colors()[px.spec_pal_index() as int];
                let b = old(self).blend();
                &&& final(similarity).memo() == m
                &&& final(self).blend() == if w > 0 {
                    Blend { r: b.r + col.r * w, g: b.g + col.g * w, b: b.b + col.b * w, weight: b.weight + w }
                } else {
                    b
                }
            }),
    {
        if px.is_transparent(self.transparent) {
            return;
        }
        let new_index = px.pal_index();
        let (weight, new_px) = similarity.compare(self.center_index, new_index);
        if weight > 0 {
            assert(new_px.r * weight <= 255 * weight && new_px.g * weight <= 255 * weight
                && new_px.b * weight <= 255 * weight && 0 <= new_px.r * weight && 0 <= new_px.g * weight
                && 0 <= new_px.b * weight) by (nonlinear_arith)
                requires
                    new_px.r <= 255,
                    new_px.g <= 255,
                    new_px.b <= 255,
            ;
            self.acc.r = self.acc.r + new_px.r as u32 * weight;
            self.acc.g = self.acc.g + new_px.g as u32 * weight;
            self.acc.b = self.acc.b + new_px.b as u32 * weight;
            self.weight = self.weight + weight;
        }
    }

    /// The blended color.
    pub fn result(&self) -> (c: Rgb8)
        requires
            self.wf(),
            self.blend().weight > 0,
        ensures
            c == blend_color(self.blend()),
    {
        let w = self.weight;
        assert(self.acc.r / w <= 255 && self.acc.g / w <= 255 && self.acc.b / w <= 255) by (nonlinear_arith)
            requires
                w > 0,
                self.acc.r <= 255 * w,
                self.acc.g <= 255 * w,
                self.acc.b <= 255 * w,
        ;
        Rgb8 { r: (self.acc.r / w) as u8, g: (self.acc.g / w) as u8, b: (self.acc.b / w) as u8 }
    }
}

/// A comparison's weight lies in `0..=8`, the remembered weights only grow, and the
/// weight is what the pair's slot holds afterwards.
pub proof fn lemma_compare_model_weight(pal: Seq<Rgb8>, memo: Seq<i8>, index1: usize, index2: usize)
    requires
        memo.len() == 65536,
        cache_slot(index1, index2) < 65536,
        memo_value_ok(memo[cache_slot(index1, index2) as int]),
    ensures
        ({
            let (w, m) = compare_model(pal, memo, index1, index2);
            &&& 0 <= w <= 8
            &&& memo_extends(memo, m)
            &&& m[cache_slot(index1, index2) as int] as int == w
        }),
{
    let slot = cache_slot(index1, index2) as int;
    if memo[slot] < 0 {
        let p1 = pal[index1 as int];
        let avg = midpoint(p1, pal[index2 as int]);
        lemma_weight_class_range(
            search_except(pal, avg, index1, index2, search_start()) as int,
            color_distance(avg, p1),
        );
    }
}

/// A comparison only ever fills the pair's empty slot, and the weight it returns is
/// what that slot holds afterwards.
pub proof fn lemma_compare_model_extends(pal: Seq<Rgb8>, memo: Seq<i8>, index1: usize, index2: usize)
    requires
        memo.len() == 65536,
        cache_slot(index1, index2) < 65536,
    ensures
        ({
            let (w, m) = compare_model(pal, memo, index1, index2);
            &&& memo_extends(memo, m)
            &&& m[cache_slot(index1, index2) as int] >= 0
            &&& m[cache_slot(index1, index2) as int] as int == w
        }),
{
    let slot = cache_slot(index1, index2) as int;
    if memo[slot] < 0 {
        let p1 = pal[index1 as int];
        let avg = midpoint(p1, pal[index2 as int]);
        lemma_weight_class_range(
            search_except(pal, avg, index1, index2, search_start()) as int,
            color_distance(avg, p1),
        );
    }
}

/// Remembered weights that survive one step and then another survive both.
pub proof fn lemma_memo_extends_trans(m1: Seq<i8>, m2: Seq<i8>, m3: Seq<i8>)
    requires
        memo_extends(m1, m2),
        memo_extends(m2, m3),
    ensures
        memo_extends(m1, m3),
{
    assert forall|k: int| 0 <= k < m1.len() && m1[k] >= 0 implies #[trigger] m3[k] == m1[k] by {
        assert(m2[k] == m1[k]);
    }
}

/// Adding a non-transparent pixel whose weight against the center is positive adds
/// that weight times its palette color to the channel sums and the weight to the total;
/// a zero weight or a transparent pixel leaves the blend as it was.
pub proof fn lemma_add_model_adds_weighted_color<P: PixAlphaAble>(
    b: Blend, center: usize, transparent: Option<u8>, pal: Seq<Rgb8>, memo: Seq<i8>, px: P,
)
    ensures
        px.spec_is_transparent(transparent) ==> add_model(b, center, transparent, pal, memo, px) == (b, memo),
        !px.spec_is_transparent(transparent) ==> ({
            let (w, m) = compare_model(pal, memo, center, px.spec_pal_index());
            let col = pal[px.spec_pal_index() as int];
            add_model(b, center, transparent, pal, memo, px) == (if w > 0 {
                Blend { r: b.r + col.r * w, g: b.g + col.g * w, b: b.b + col.b * w, weight: b.weight + w }
            } else {
                b
            }, m)
        }),
{
}

/// A comparison remembers its answer: asking again, in either order, gives the same
/// weight and changes nothing more.
pub proof fn lemma_compare_remembers(pal: Seq<Rgb8>, memo: Seq<i8>, index1: usize, index2: usize)
    requires
        memo.len() == 65536,
        cache_slot(index1, index2) < 65536,
        forall|k: int| 0 <= k < 65536 ==> #[trigger] memo[k] <= 8,
    ensures
        ({
            let (w, m) = compare_model(pal, memo, index1, index2);
            &&& compare_model(pal, m, index1, index2) == (w, m)
            &&& compare_model(pal, m, index2, index1) == (w, m)
        }),
{
    assert(cache_slot(index1, index2) == cache_slot(index2, index1));
    let slot = cache_slot(index1, index2) as int;
    if memo[slot] < 0 {
        let p1 = pal[index1 as int];
        let avg = midpoint(p1, pal[index2 as int]);
        lemma_weight_class_range(
            search_except(pal, avg, index1, index2, search_start()) as int,
            color_distance(avg, p1),
        );
    }
}

/// Once a pair has been compared, its weight is fixed: with any later remembered
/// weights that keep what that comparison left (every comparison, blend and pass
/// keeps them), comparing the pair again, in either order, gives the same weight and
/// changes nothing.
pub proof fn lemma_weight_fixed_once_computed(
    pal: Seq<Rgb8>, memo: Seq<i8>, later: Seq<i8>, index1: usize, index2: usize,
)
    requires
        memo.len() == 65536,
        cache_slot(index1, index2) < 65536,
        memo_extends(compare_model(pal, memo, index1, index2).1, later),
    ensures
        compare_model(pal, later, index1, index2) == (compare_model(pal, memo, index1, index2).0, later),
        compare_model(pal, later, index2, index1) == (compare_model(pal, memo, index1, index2).0, later),
{
    lemma_compare_model_extends(pal, memo, index1, index2);
    assert(cache_slot(index1, index2) == cache_slot(index2, index1));
}

/// A fresh comparer gives weight 7 to a color against itself, for entries 0 to 254.
pub proof fn lemma_fresh_self_weight(pal: Seq<Rgb8>, index: usize)
    requires
        index < 255,
    ensures
        compare_model(pal, initial_memo(), index, index).0 == 7,
{
    let slot = cache_slot(index, index);
    assert(slot == index * 257) by (bit_vector)
        requires
            index < 255,
            slot == index << 8 | index,
    ;
    let k = slot as int;
    assert(k % 257 == 0 && k / 257 == index) by (nonlinear_arith)
        requires
            k == index * 257,
    ;
}

} // verus!
