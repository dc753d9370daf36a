use undither::{average, diff, PalAlpha, PixAlphaAble, Rgb8, Rgba8, ToGray};

#[test]
fn diff_is_squared_distance() {
    assert_eq!(diff(Rgb8::new(1, 2, 3), Rgb8::new(4, 6, 3)), 25);
    assert_eq!(diff(Rgb8::new(4, 6, 3), Rgb8::new(1, 2, 3)), 25);
    assert_eq!(diff(Rgb8::new(0, 0, 0), Rgb8::new(255, 255, 255)), 195075);
    assert_eq!(diff(Rgb8::new(9, 9, 9), Rgb8::new(9, 9, 9)), 0);
}

#[test]
fn average_rounds_down() {
    assert_eq!(average(Rgb8::new(10, 11, 255), Rgb8::new(20, 12, 0)), Rgb8::new(15, 11, 127));
    assert_eq!(average(Rgb8::new(255, 255, 255), Rgb8::new(255, 255, 255)), Rgb8::new(255, 255, 255));
}

#[test]
fn gray_weighs_green_twice() {
    assert_eq!(Rgb8::new(1, 2, 3).to_gray(), 8);
    assert_eq!(Rgb8::new(255, 255, 255).to_gray(), 1020);
    assert_eq!(Rgba8::new(1, 2, 3, 0).to_gray(), 8);
    assert_eq!(Rgba8::new(10, 20, 30, 255).rgb(), Rgb8::new(10, 20, 30));
}

#[test]
fn pal_alpha_from_index_is_opaque() {
    let p = PalAlpha::from(7u8);
    assert_eq!(p.idx, 7);
    assert!(p.a);
    assert_eq!(p.pal_index(), 7);
    assert!(!p.is_transparent(None));
    assert!(p.is_transparent(Some(7)));
    assert!(!p.is_transparent(Some(6)));
}

#[test]
fn pal_alpha_from_flag() {
    let p = PalAlpha::from(false);
    assert_eq!(p.idx, 0);
    assert!(!p.a);
    assert!(p.is_transparent(None));
    assert!(!p.is_transparent(Some(3)));
    assert!(p.is_transparent(Some(0)));
    let q = PalAlpha::from(true);
    assert!(!q.is_transparent(None));
}

#[test]
fn plain_index_transparency() {
    assert!(5u8.is_transparent(Some(5)));
    assert!(!5u8.is_transparent(Some(4)));
    assert!(!5u8.is_transparent(None));
    assert_eq!(200u8.pal_index(), 200);
}
