use undither::{
    expand_by_1, indices_in_palette, similarity_weight, Acc, Image, Pal, PalAlpha, Rgb8, Similarity, Undither,
};

fn black() -> Rgb8 {
    Rgb8::new(0, 0, 0)
}

fn white() -> Rgb8 {
    Rgb8::new(255, 255, 255)
}

#[test]
fn weight_classes() {
    assert_eq!(similarity_weight(100, 10), 8);
    assert_eq!(similarity_weight(20, 10), 8);
    assert_eq!(similarity_weight(15, 10), 6);
    assert_eq!(similarity_weight(10, 10), 6);
    assert_eq!(similarity_weight(7, 10), 1);
    assert_eq!(similarity_weight(6, 10), 0);
    assert_eq!(similarity_weight(0, 0), 8);
    assert_eq!(similarity_weight(0x8000_0000, 195075), 8);
    assert_eq!(similarity_weight(4_000_000_000, 4_000_000_001), 1);
}

#[test]
fn expand_grows_inside_bounds() {
    assert_eq!(expand_by_1(5, 5, 10, 10, 100, 100), (4, 4, 12, 12));
    assert_eq!(expand_by_1(0, 0, 10, 10, 11, 11), (0, 0, 10, 10));
    assert_eq!(expand_by_1(0, 0, 10, 10, 12, 12), (0, 0, 11, 11));
    assert_eq!(expand_by_1(1, 2, 3, 4, 5, 7), (0, 1, 4, 5));
}

#[test]
fn self_comparison_is_seven() {
    let mut s = Similarity::new(vec![black(), white()]);
    assert_eq!(s.compare(0, 0), (7, black()));
    assert_eq!(s.compare(1, 1), (7, white()));
}

#[test]
fn last_entry_against_itself_is_computed() {
    let mut pal = vec![black(); 256];
    pal[255] = white();
    let mut s = Similarity::new(pal);
    assert_eq!(s.compare(255, 255), (8, white()));
}

#[test]
fn two_color_palette_always_blends() {
    let mut s = Similarity::new(vec![black(), white()]);
    assert_eq!(s.compare(0, 1), (8, white()));
    assert_eq!(s.compare(1, 0), (8, black()));
}

#[test]
fn in_between_color_marks_an_edge() {
    let gray = Rgb8::new(127, 127, 127);
    let mut s = Similarity::new(vec![black(), white(), gray]);
    // the midpoint of black and white is in the palette
    assert_eq!(s.compare(0, 1), (0, white()));
    // nothing lies between black and gray
    assert_eq!(s.compare(0, 2), (8, gray));
    // remembered for the pair, in either order
    assert_eq!(s.compare(1, 0), (0, black()));
    assert_eq!(s.compare(2, 0), (8, black()));
    assert_eq!(s.pal(2), gray);
}

#[test]
fn acc_blends_weighted_colors() {
    let mut s = Similarity::new(vec![black(), white()]);
    let mut acc = Acc::new(0, 8, None, &s);
    acc.add(&mut s, 1u8);
    assert_eq!(acc.result(), Rgb8::new(127, 127, 127));
}

#[test]
fn acc_skips_transparent_pixels() {
    let mut s = Similarity::new(vec![black(), white()]);
    let mut acc = Acc::new(1, 8, Some(0), &s);
    acc.add(&mut s, 0u8);
    acc.add(&mut s, PalAlpha::from(false));
    assert_eq!(acc.result(), white());
}

fn dotted_source() -> Image<u8> {
    Image::new(vec![0, 0, 0, 0, 1, 0, 0, 0, 0], 3, 3)
}

#[test]
fn undither_blends_a_dot_into_its_surroundings() {
    let mut u = Undither::new(None);
    let mut pal = Pal::new(&[0, 0, 0, 255, 255, 255]);
    let src = dotted_source();
    assert!(indices_in_palette(&src, None, 2));
    let mut out = Image::new(vec![black(); 9], 3, 3);
    u.undith_into(&src, None, Some(&mut pal), 0, 0, 3, 3, &mut out);
    let g = Rgb8::new(31, 31, 31);
    let c = Rgb8::new(28, 28, 28);
    assert_eq!(out.into_buf(), vec![g, g, g, g, c, g, g, g, g]);
}

#[test]
fn undither_with_global_palette_gives_the_same() {
    let bytes: [u8; 6] = [0, 0, 0, 255, 255, 255];
    let mut u = Undither::new(Some(&bytes));
    let src = dotted_source();
    let mut out = Image::new(vec![black(); 9], 3, 3);
    u.undith_into(&src, None, None, 0, 0, 3, 3, &mut out);
    let g = Rgb8::new(31, 31, 31);
    let c = Rgb8::new(28, 28, 28);
    assert_eq!(out.into_buf(), vec![g, g, g, g, c, g, g, g, g]);
}

#[test]
fn undither_leaves_strong_edges_alone() {
    let mut u = Undither::new(None);
    let mut pal = Pal::new(&[0, 0, 0, 255, 255, 255]);
    let src = dotted_source();
    let w = white();
    let b = black();
    let mut out = Image::new(vec![w, b, b, w, b, b, w, b, b], 3, 3);
    u.undith_into(&src, None, Some(&mut pal), 0, 0, 3, 3, &mut out);
    let g = Rgb8::new(31, 31, 31);
    assert_eq!(out.into_buf(), vec![w, b, g, w, b, g, w, b, g]);
}

#[test]
fn undither_keeps_transparent_pixels() {
    let mut u = Undither::new(None);
    let mut pal = Pal::new(&[0, 0, 0, 255, 255, 255]);
    let src = dotted_source();
    let t = Rgb8::new(9, 9, 9);
    let mut out = Image::new(vec![t; 9], 3, 3);
    u.undith_into(&src, Some(1), Some(&mut pal), 0, 0, 3, 3, &mut out);
    let z = black();
    assert_eq!(out.into_buf(), vec![z, z, z, z, t, z, z, z, z]);
}

#[test]
fn undither_flat_area_keeps_its_color() {
    let mut u = Undither::new(None);
    let mut pal = Pal::new(&[10, 20, 30, 255, 255, 255]);
    let src = Image::new(vec![0u8; 16], 4, 4);
    let mut out = Image::new(vec![black(); 16], 4, 4);
    u.undith_into(&src, None, Some(&mut pal), 1, 1, 2, 2, &mut out);
    // grown to columns 0..=2, rows 0..=2
    let c = Rgb8::new(10, 20, 30);
    let px = out.into_buf();
    for y in 0..4 {
        for x in 0..4 {
            assert_eq!(px[y * 4 + x], if x < 3 && y < 3 { c } else { black() }, "{x},{y}");
        }
    }
}

#[test]
fn undither_outside_the_grown_rectangle_is_untouched() {
    let mut u = Undither::new(None);
    let mut pal = Pal::new(&[10, 20, 30, 255, 255, 255]);
    let src = Image::new(vec![0u8; 36], 6, 6);
    let m = Rgb8::new(1, 1, 1);
    let mut out = Image::new(vec![m; 36], 6, 6);
    // grown to columns 1..=3, rows 1..=3
    u.undith_into(&src, None, Some(&mut pal), 2, 2, 1, 1, &mut out);
    let px = out.into_buf();
    let c = Rgb8::new(10, 20, 30);
    for y in 0..6 {
        for x in 0..6 {
            let inside = (1..=3).contains(&x) && (1..=3).contains(&y);
            assert_eq!(px[y * 6 + x], if inside { c } else { m }, "{x},{y}");
        }
    }
}

#[test]
fn palette_index_check() {
    let src = Image::new(vec![0u8, 3, 1], 3, 1);
    assert!(!indices_in_palette(&src, None, 2));
    assert!(indices_in_palette(&src, Some(3), 2));
    assert!(indices_in_palette(&src, None, 4));
}

#[test]
fn acc_transparent_add_with_largest_weight_changes_nothing() {
    let mut s = Similarity::new(vec![black(), white()]);
    let mut acc = Acc::new(1, 16_843_009, Some(0), &s);
    acc.add(&mut s, 0u8);
    assert_eq!(acc.result(), white());
}

#[test]
fn palette_midpoint_color_blocks_blending() {
    let mid = Rgb8::new(50, 60, 70);
    let mut s = Similarity::new(vec![Rgb8::new(0, 0, 0), Rgb8::new(100, 120, 140), mid, white()]);
    assert_eq!(s.compare(1, 0), (0, black()));
}

#[test]
fn local_palette_takes_precedence_over_global() {
    let src = dotted_source();
    let mut u1 = Undither::new(Some(&[9, 9, 9, 200, 100, 50]));
    let mut u2 = Undither::new(None);
    let mut out1 = Image::new(vec![black(); 9], 3, 3);
    let mut out2 = Image::new(vec![black(); 9], 3, 3);
    let mut p1 = Pal::new(&[0, 0, 0, 255, 255, 255]);
    let mut p2 = Pal::new(&[0, 0, 0, 255, 255, 255]);
    u1.undith_into(&src, None, Some(&mut p1), 0, 0, 3, 3, &mut out1);
    u2.undith_into(&src, None, Some(&mut p2), 0, 0, 3, 3, &mut out2);
    assert_eq!(out1.into_buf(), out2.into_buf());
}

#[test]
fn weight_stays_fixed_after_later_comparisons() {
    let gray = Rgb8::new(127, 127, 127);
    let mut s = Similarity::new(vec![black(), white(), gray]);
    let (w, _) = s.compare(1, 0);
    let _ = s.compare(0, 2);
    let _ = s.compare(2, 1);
    assert_eq!(s.compare(0, 1).0, w);
    assert_eq!(s.compare(1, 0).0, w);
}
