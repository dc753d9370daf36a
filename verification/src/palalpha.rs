use vstd::prelude::*;
use vstd::std_specs::convert::FromSpecImpl;

verus! {

/// A palette index together with an opacity flag (`a == true` is opaque).
#[derive(Copy, Clone, Debug, PartialEq, Eq, Structural)]
pub struct PalAlpha {
    pub idx: u8,
    pub a: bool,
}

impl From<u8> for PalAlpha {
    fn from(idx: u8) -> (p: Self) {
        PalAlpha { idx: idx, a: true }
    }
}

impl FromSpecImpl<u8> for PalAlpha {
    open spec fn obeys_from_spec() -> bool {
        true
    }

    open spec fn from_spec(idx: u8) -> PalAlpha {
        PalAlpha { idx: idx, a: true }
    }
}

impl From<bool> for PalAlpha {
    fn from(a: bool) -> (p: Self) {
        PalAlpha { idx: 0, a: a }
    }
}

impl FromSpecImpl<bool> for PalAlpha {
    open spec fn obeys_from_spec() -> bool {
        true
    }

    open spec fn from_spec(a: bool) -> PalAlpha {
        PalAlpha { idx: 0, a: a }
    }
}

/// A pixel of a paletted image: it names a palette entry and may be transparent.
pub trait PixAlphaAble: Copy {
    /// The palette entry that the pixel names.
    spec fn spec_pal_index(&self) -> usize;

    /// Whether the pixel counts as transparent, given the image's transparent index.
    spec fn spec_is_transparent(&self, transparent_index: Option<u8>) -> bool;

    fn pal_index(&self) -> (i: usize)
        ensures
            i == self.spec_pal_index(),
    ;

    fn is_transparent(&self, transparent_index: Option<u8>) -> (t: bool)
        ensures
            t == self.spec_is_transparent(transparent_index),
    ;
}

impl PixAlphaAble for u8 {
    open spec fn spec_pal_index(&self) -> usize {
        *self as usize
    }

    /// A plain index is transparent exactly when it is the transparent index.
    open spec fn spec_is_transparent(&self, transparent_index: Option<u8>) -> bool {
        match transparent_index {
            Some(index) => *self == index,
            None => false,
        }
    }

    fn pal_index(&self) -> (i: usize) {
        *self as usize
    }

    fn is_transparent(&self, transparent_index: Option<u8>) -> (t: bool) {
        if let Some(index) = transparent_index {
            return *self == index;
        }
        return false;
    }
}

impl PixAlphaAble for PalAlpha {
    open spec fn spec_pal_index(&self) -> usize {
        self.idx as usize
    }

    /// With a transparent index the flag is ignored; without one the flag decides.
    open spec fn spec_is_transparent(&self, transparent_index: Option<u8>) -> bool {
        match transparent_index {
            Some(index) => self.idx == index,
            None => !self.a,
        }
    }

    fn pal_index(&self) -> (i: usize) {
        self.idx as usize
    }

    fn is_transparent(&self, transparent_index: Option<u8>) -> (t: bool) {
        if let Some(index) = transparent_index {
            return self.idx == index;
        }
        return !self.a;
    }
}

} // verus!
