//! Removes Floyd-Steinberg dithering from paletted images. Each pixel is blended
//! with those neighbours whose colors the palette cannot tell apart: when the
//! palette holds a color between two pixels' colors, their border is an edge
//! and they are kept apart.
//!
//! Modules: `color` (colors and their distance), `palalpha` (paletted pixels),
//! `image` (images and 3x3 neighbourhoods), `prewitt` (edge strength),
//! `palette_tree` (nearest-color search over a palette), `acc` (pairwise blending
//! weights and the weighted blend), `pal` (palettes) and `undither` (the pass over
//! an image, its model and its laws).

mod acc;
mod color;
mod image;
mod pal;
mod palalpha;
mod palette_tree;
mod prewitt;
mod undither;

pub use acc::{
    Acc, Blend, CACHE_SIZE, Similarity, add_model, blend_add, blend_color, blend_of, cache_slot, compare_model,
    initial_memo, lemma_compare_remembers, lemma_fresh_self_weight, pair_weight, search_start, similarity_weight,
    valid_pair, weight_class, memo_value_ok, memo_extends, lemma_compare_model_weight, lemma_compare_model_extends, lemma_weight_fixed_once_computed, lemma_add_model_adds_weighted_color,
    lemma_memo_extends_trans, edge_pair, weight_facts, slot_value, memo_facts,
};
pub use color::{
    Rgb32, Rgb8, Rgba8, average, color_distance, diff, lemma_color_distance_bounds,
    lemma_color_distance_symmetric_zero, midpoint,
};
pub use image::{Image, Triple, clamp, lemma_index_in_bounds, lemma_index_injective};
pub use pal::{Pal, bytes_to_colors, lemma_colors_equal_iff_bytes_equal, lemma_pal_equality_is_byte_equality};
pub use palalpha::{PalAlpha, PixAlphaAble};
pub use palette_tree::{PaletteMetric, PaletteTree, palette_tree_items, search_except};
pub use prewitt::{
    ToGray, fits_i16, gray_at, gray_fits, lemma_prewitt_fits_gray_range, lemma_prewitt_flat,
    lemma_prewitt_shift_invariant, lemma_prewitt_mirror_symmetric, lemma_prewitt_zero_iff_small, lemma_rgb_gray_fits, prewitt_at, prewitt_fits, prewitt_fits3, prewitt_gx,
    prewitt_gy, prewitt_squared, prewitt_squared3, prewitt_squared_img, prewitt_value, prewitt_value3,
};
pub use undither::{
    EDGE_CENTER_WEIGHT, FLAT_CENTER_WEIGHT, PREWITT_HIGH_THRESHOLD, PREWITT_LOW_THRESHOLD, Region, Undither,
    add_all, blend_within, expand_by_1, expand_rect, indices_in_palette, indices_within,
    lemma_flat_area_keeps_color, lemma_indices_within_lookups_ok, lemma_outside_unchanged,
    lemma_output_within_window_colors, lemma_pixel_outcome, lemma_pass_keeps_weights,
    lemma_output_within_blended_colors, lemma_edge_neighbours_not_blended, lemma_pixel_blended_unless_strong_edge, lemma_skipped_unchanged, pal_in_use, pass_region, local_value, pass_result,
    lemma_local_palette_takes_precedence, lemma_global_palette_as_built,
    within,
};
