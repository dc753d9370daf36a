use vstd::prelude::*;
use crate::color::{Rgb8, color_distance, diff};

verus! {

/// Marks the metric under which palette colors are compared in the search tree:
/// the squared distance of `diff`.
pub struct PaletteMetric;

impl vpsearch::MetricSpace<PaletteMetric> for Rgb8 {
    type UserData = ();
    type Distance = u32;

    fn distance(&self, other: &Rgb8, _user_data: &()) -> (d: u32)
        ensures
            d == color_distance(*self, *other),
    {
        diff(*self, *other)
    }
}

/// Search state that keeps the smallest distance seen so far, but ignores the
/// two palette entries being compared.
pub struct ExceptTheseTwo {
    pub index1: usize,
    pub index2: usize,
    pub distance: u32,
}

impl vpsearch::BestCandidate<Rgb8, PaletteMetric> for ExceptTheseTwo {
    type Output = u32;

    fn consider(&mut self, _item: &Rgb8, dist: u32, idx: usize, _user_data: &())
        ensures
            final(self).index1 == old(self).index1,
            final(self).index2 == old(self).index2,
            final(self).distance == (if dist < old(self).distance && idx != old(self).index1
                && idx != old(self).index2 { dist } else { old(self).distance }),
    {
        if dist < self.distance {
            if idx == self.index1 || idx == self.index2 {
                return;
            }
            self.distance = dist;
        }
    }

    fn distance(&self) -> (d: u32)
        ensures
            d == self.distance,
    {
        self.distance
    }

    fn result(self, _user_data: &()) -> (d: u32)
        ensures
            d == self.distance,
    {
        self.distance
    }
}

/// A vantage-point tree over the colors of a palette.
#[verifier::external_body]
pub struct PaletteTree {
    tree: vpsearch::Tree<Rgb8, PaletteMetric>,
}

/// The colors that a tree was built from, in palette order.
pub uninterp spec fn palette_tree_items(t: PaletteTree) -> Seq<Rgb8>;

/// What `vpsearch::Tree::find_nearest_custom` returns for a tree over `items`, the
/// needle `needle` and an `ExceptTheseTwo` that starts at `start` and skips
/// `index1` and `index2`.
pub uninterp spec fn search_except(items: Seq<Rgb8>, needle: Rgb8, index1: usize, index2: usize, start: u32) -> u32;

/// Builds a tree with `vpsearch::Tree::new`, which asserts that there are fewer
/// than `u32::MAX / 2` items. Claims only that the tree holds the given colors.
#[verifier::external_body]
pub(crate) fn palette_tree_new(pal: &Vec<Rgb8>) -> (t: PaletteTree)
    requires
        pal.len() < u32::MAX / 2,
    ensures
        palette_tree_items(t) == pal@,
{
    PaletteTree { tree: vpsearch::Tree::new(pal) }
}

/// Runs `vpsearch::Tree::find_nearest_custom` with the given search state.
/// The result is named by `search_except`. The source shows that the state's
/// distance starts at `best.distance`, only ever decreases, and is only set to the
/// `diff` between the needle and a tree item whose index is neither of the two
/// skipped ones; that is claimed too. The search always reaches the node of an
/// item equal to the needle (each node sends it towards the half that holds such
/// an item, and ties on the radius visit both halves), whose distance is 0; so
/// when a non-skipped item equals the needle the result is 0. Beyond that, which
/// item the search reaches is not stated: the tree visits only part of the items.
/// The search adds a node's radius or the needle's distance (at most 195075) to
/// the state's distance in `u32`, so the start must leave room for that sum.
#[verifier::external_body]
pub(crate) fn palette_tree_search_except(t: &PaletteTree, needle: Rgb8, best: ExceptTheseTwo) -> (d: u32)
    requires
        best.distance <= u32::MAX - 195075,
    ensures
        d == search_except(palette_tree_items(*t), needle, best.index1, best.index2, best.distance),
        d <= best.distance,
        d == best.distance || exists|k: int|
            0 <= k < palette_tree_items(*t).len() && k != best.index1 && k != best.index2
                && d == color_distance(needle, #[trigger] palette_tree_items(*t)[k]),
        (exists|k: int|
            0 <= k < palette_tree_items(*t).len() && k != best.index1 && k != best.index2
                && #[trigger] palette_tree_items(*t)[k] == needle) ==> d == 0,
{
    t.tree.find_nearest_custom(&needle, &(), best)
}

} // verus!
