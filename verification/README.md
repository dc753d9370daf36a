# undither

Removes Floyd-Steinberg dithering from paletted images. For two adjacent pixels,
if the palette holds a color between their colors, their border is taken for an
edge; otherwise the pixels are blended. Strong edges (measured with a Prewitt
filter on the output image) and transparent pixels are left alone.

The library in `src/` is verified with Verus. `Undither::undith_into` is specified
exactly by `Region::result`, a pixel-by-pixel model of the pass, and
`src/undither.rs` proves its laws from that model: nothing outside the grown
rectangle changes, transparent and strong-edge pixels keep their color, flat areas
keep their palette color, and a blended pixel stays within the range of the colors
it was blended from.

The search for the palette color nearest to the midpoint of two colors is made by
the `vpsearch` crate behind the two trusted functions of `src/palette_tree.rs`.
`Similarity::compare` states the edge rule for the case the search always settles:
when another palette color is exactly the midpoint of two different colors, the
neighbour gets weight 0 and is not blended in. Remembered weights keep this fact,
so `lemma_edge_neighbours_not_blended` carries it to the whole pass: such
neighbours have no part in a pixel's result.

`app/main.rs` is the command-line program: it reads a 256-color PNG with `lodepng`
and writes the undithered truecolor PNG.
