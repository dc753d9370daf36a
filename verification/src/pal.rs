use vstd::prelude::*;
use vstd::std_specs::cmp::{PartialEqSpec, PartialEqSpecImpl};
use crate::color::Rgb8;
use crate::acc::{Similarity, initial_memo};

verus! {

/// The colors of a palette given as consecutive `r, g, b` bytes.
pub open spec fn bytes_to_colors(bytes: Seq<u8>) -> Seq<Rgb8> {
    Seq::new(bytes.len() / 3, |i: int| Rgb8 { r: bytes[3 * i], g: bytes[3 * i + 1], b: bytes[3 * i + 2] })
}

fn to_rgb(palette_bytes: &[u8]) -> (colors: Vec<Rgb8>)
    requires
        palette_bytes@.len() % 3 == 0,
    ensures
        colors@ == bytes_to_colors(palette_bytes@),
{
    let len = palette_bytes.len();
    let n = len / 3;
    let mut colors: Vec<Rgb8> = Vec::new();
    let mut i: usize = 0;
    while i < n
        invariant
            len == palette_bytes@.len(),
            n == len / 3,
            len % 3 == 0,
            i <= n,
            colors@ =~= bytes_to_colors(palette_bytes@).take(i as int),
        decreases n - i,
    {
        assert(3 * i + 2 < palette_bytes@.len());
        let c = Rgb8 { r: palette_bytes[3 * i], g: palette_bytes[3 * i + 1], b: palette_bytes[3 * i + 2] };
        colors.push(c);
        i += 1;
    }
    colors
}

/// A palette together with the comparer of its colors.
pub struct Pal {
    pal: Vec<Rgb8>,
    similarity: Similarity,
}

impl Pal {
    pub closed spec fn colors(&self) -> Seq<Rgb8> {
        self.pal@
    }

    /// The comparer; its colors are the palette's.
    pub closed spec fn sim(&self) -> Similarity {
        self.similarity
    }

    pub open spec fn wf(&self) -> bool {
        &&& self.sim().wf()
        &&& self.sim().colors() == self.colors()
    }

    /// A palette of `r, g, b` byte triples.
    pub fn new(palette_bytes: &[u8]) -> (p: Self)
        requires
            palette_bytes@.len() % 3 == 0,
            palette_bytes@.len() / 3 < u32::MAX / 2,
        ensures
            p.wf(),
            p.colors() == bytes_to_colors(palette_bytes@),
            p.sim().memo() == initial_memo(),
    {
        let pal = to_rgb(palette_bytes);
        let copy = to_rgb(palette_bytes);
        Pal { similarity: Similarity::new(copy), pal: pal }
    }

    /// The comparer of this palette's colors.
    pub fn similarity(&mut self) -> (s: &mut Similarity)
        ensures
            *s == old(self).sim(),
            final(self).colors() == old(self).colors(),
            final(self).sim() == *final(s),
    {
        &mut self.similarity
    }

    /// The color of entry `i`.
    pub fn index(&self, i: usize) -> (c: Rgb8)
        requires
            i < self.colors().len(),
        ensures
            c == self.colors()[i as int],
    {
        self.pal[i]
    }
}

impl PartialEq for Pal {
    fn eq(&self, other: &Pal) -> (r: bool) {
        let n = self.pal.len();
        if n != other.pal.len() {
            return false;
        }
        let mut i: usize = 0;
        while i < n
            invariant
                n == self.pal@.len(),
                n == other.pal@.len(),
                i <= n,
                forall|k: int| 0 <= k < i ==> self.pal@[k] == other.pal@[k],
            decreases n - i,
        {
            if self.pal[i] != other.pal[i] {
                return false;
            }
            i += 1;
        }
        assert(self.pal@ =~= other.pal@);
        true
    }
}

impl PartialEqSpecImpl for Pal {
    open spec fn obeys_eq_spec() -> bool {
        true
    }

    /// Two palettes are equal when they hold the same colors in the same order.
    open spec fn eq_spec(&self, other: &Pal) -> bool {
        self.colors() == other.colors()
    }
}

/// Two palettes built from byte strings are equal exactly when the bytes are.
pub proof fn lemma_colors_equal_iff_bytes_equal(a: Seq<u8>, b: Seq<u8>)
    requires
        a.len() % 3 == 0,
        b.len() % 3 == 0,
    ensures
        bytes_to_colors(a) == bytes_to_colors(b) <==> a == b,
{
    if bytes_to_colors(a) == bytes_to_colors(b) {
        assert(bytes_to_colors(a).len() == bytes_to_colors(b).len());
        assert(a.len() == b.len());
        assert forall|i: int| 0 <= i < a.len() implies a[i] == b[i] by {
            let j = i / 3;
            assert(bytes_to_colors(a)[j] == bytes_to_colors(b)[j]);
        }
        assert(a =~= b);
    }
}

/// Palettes built from byte strings compare equal (`==`) exactly when the byte strings
/// are equal: every channel of every color counts.
pub proof fn lemma_pal_equality_is_byte_equality(p: Pal, q: Pal, a: Seq<u8>, b: Seq<u8>)
    requires
        a.len() % 3 == 0,
        b.len() % 3 == 0,
        p.colors() == bytes_to_colors(a),
        q.colors() == bytes_to_colors(b),
    ensures
        PartialEqSpec::eq_spec(&p, &q) <==> a == b,
{
    lemma_colors_equal_iff_bytes_equal(a, b);
}

} // verus!
