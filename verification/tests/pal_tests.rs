use undither::{Pal, Rgb8};

#[test]
fn paltest() {
    let a = vec![1, 2, 3];
    let b = vec![1, 2, 3];
    let c = vec![1, 1, 1];

    assert!(Pal::new(&a) == Pal::new(&a));
    assert!(Pal::new(&b) == Pal::new(&a));
    assert!(&Pal::new(&a) == &Pal::new(&b));

    assert!(Pal::new(&a) != Pal::new(&c));
}

#[test]
fn pal_colors_come_from_byte_triples() {
    let p = Pal::new(&[1, 2, 3, 200, 100, 0]);
    assert_eq!(p.index(0), Rgb8::new(1, 2, 3));
    assert_eq!(p.index(1), Rgb8::new(200, 100, 0));
}

#[test]
fn pal_of_different_length_differs() {
    assert!(Pal::new(&[1, 2, 3]) != Pal::new(&[1, 2, 3, 1, 2, 3]));
    assert!(Pal::new(&[]) == Pal::new(&[]));
}
