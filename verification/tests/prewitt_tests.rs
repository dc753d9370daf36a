use undither::{prewitt_squared, prewitt_squared3, prewitt_squared_img, Image, Rgb8, Triple};

#[test]
fn prewitt_vertical_gradient() {
    // gy = 30, gx = 0
    assert_eq!(prewitt_squared(0, 0, 0, 0, 0, 10, 10, 10), 3);
}

#[test]
fn prewitt_horizontal_gradient() {
    // gx = 300, gy = 0: 90000 / 256
    assert_eq!(prewitt_squared(0, 50, 100, 0, 100, 0, 50, 100), 351);
}

#[test]
fn prewitt_flat_is_zero() {
    assert_eq!(prewitt_squared(7, 7, 7, 7, 7, 7, 7, 7), 0);
    assert_eq!(prewitt_squared(-3, -3, -3, -3, -3, -3, -3, -3), 0);
}

#[test]
fn prewitt_truncates_to_16_bits() {
    // gx = -3060, gy = 0: 9363600 / 256 = 36576
    assert_eq!(prewitt_squared(1020, 0, 0, 1020, 0, 1020, 0, 0), 36576);
    // gx = 3 * 5000, gy = 0: 225000000 / 256 = 878906, truncated to 16 bits
    assert_eq!(prewitt_squared(0, 0, 5000, 0, 5000, 0, 0, 5000), (878906u32 & 0xffff) as u16);
}

#[test]
fn prewitt_of_triples() {
    let t = Triple::new(0i16, 50, 100);
    assert_eq!(prewitt_squared3(t, t, t), 351);
}

#[test]
fn prewitt_image_clamps_at_edges() {
    let w = Rgb8::new(255, 255, 255);
    let b = Rgb8::new(0, 0, 0);
    // one white column on the left of a 3x2 image
    let img = Image::new(vec![w, b, b, w, b, b], 3, 2);
    let p = prewitt_squared_img(&img);
    assert_eq!(p.width(), 3);
    assert_eq!(p.height(), 2);
    let px = p.buf().clone();
    assert_eq!(px, vec![36576, 36576, 0, 36576, 36576, 0]);
}

#[test]
fn prewitt_image_of_flat_image_is_zero() {
    let c = Rgb8::new(10, 20, 30);
    let img = Image::new(vec![c; 12], 4, 3);
    let p = prewitt_squared_img(&img);
    assert_eq!(p.into_buf(), vec![0u16; 12]);
}

#[test]
fn blur_loop_over_flat_screen_sums_to_zero() {
    let screen = vec![30u8; 320 * 200];
    let mut sum = 0usize;
    for y in 0..200 {
        let row1 = &screen[y * 320..y * 320 + 320];
        let row0 = if y > 0 { &screen[(y - 1) * 320..(y - 1) * 320 + 320] } else { row1 };
        let row2 = if y + 1 < 200 { &screen[(y + 1) * 320..(y + 1) * 320 + 320] } else { row1 };
        for x in 0..320 {
            let tc = row0[x];
            let tp = if x > 0 { row0[x - 1] } else { tc };
            let tn = if x + 1 < 320 { row0[x + 1] } else { tc };
            let mc = row1[x];
            let mp = if x > 0 { row1[x - 1] } else { mc };
            let mn = if x + 1 < 320 { row1[x + 1] } else { mc };
            let bc = row2[x];
            let bp = if x > 0 { row2[x - 1] } else { bc };
            let bn = if x + 1 < 320 { row2[x + 1] } else { bc };
            sum += prewitt_squared(
                tp as i16, tc as i16, tn as i16, mp as i16, mn as i16, bp as i16, bc as i16, bn as i16,
            ) as usize;
        }
    }
    assert_eq!(sum, 0);
}

#[test]
fn blur_loop_over_neighbourhoods() {
    // a vertical ramp: every row one step brighter
    let mut px = Vec::new();
    for y in 0..200i16 {
        for _ in 0..320 {
            px.push(y);
        }
    }
    let img = Image::new(px, 320, 200);
    let mut sum = 0usize;
    for y in 0..200 {
        for x in 0..320 {
            let (top, mid, bot) = img.neighbours(0, x, y);
            sum += prewitt_squared3(top, mid, bot) as usize;
        }
    }
    // inner rows: gy = 6, 36 / 256 = 0; edge rows: gy = 3, 9 / 256 = 0
    assert_eq!(sum, 0);
    let (top, mid, bot) = img.neighbours(0, 5, 0);
    assert_eq!(top, Triple::new(0, 0, 0));
    assert_eq!(mid, Triple::new(0, 0, 0));
    assert_eq!(bot, Triple::new(1, 1, 1));
    let (top, _, bot) = img.neighbours(0, 319, 199);
    assert_eq!(top, Triple::new(198, 198, 198));
    assert_eq!(bot, Triple::new(199, 199, 199));
    let (top, _, _) = img.neighbours(3, 0, 3);
    assert_eq!(top, Triple::new(3, 3, 3));
}

#[test]
fn steep_ramp_has_edges() {
    let mut px = Vec::new();
    for y in 0..3i16 {
        for _ in 0..3 {
            px.push(y * 100);
        }
    }
    let img = Image::new(px, 3, 3);
    let (top, mid, bot) = img.neighbours(0, 1, 1);
    // gy = 3 * 200 = 600: 360000 / 256 = 1406
    assert_eq!(prewitt_squared3(top, mid, bot), 1406);
}

#[test]
fn blur_loop_mut_sliding_window_over_flat_screen() {
    let screen = vec![30u8; 320 * 200];
    let mut sum = 0usize;
    let mut row0;
    let mut row1 = &screen[0..320];
    let mut row2 = &screen[320..320 + 320];
    for y in 0..200 {
        row0 = row1;
        row1 = row2;
        row2 = if y + 1 < 200 { &screen[(y + 1) * 320..(y + 1) * 320 + 320] } else { row1 };
        let mut tp;
        let mut tc = row0[0];
        let mut tn = row0[1];
        let mut mp;
        let mut mc = row1[0];
        let mut mn = row1[1];
        let mut bp;
        let mut bc = row2[0];
        let mut bn = row2[1];
        for x in 0..320 {
            tp = tc;
            tc = tn;
            tn = if x + 1 < 320 { row0[x + 1] } else { tc };
            mp = mc;
            mc = mn;
            mn = if x + 1 < 320 { row1[x + 1] } else { mc };
            bp = bc;
            bc = bn;
            bn = if x + 1 < 320 { row2[x + 1] } else { bc };
            sum += prewitt_squared(
                tp as i16, tc as i16, tn as i16, mp as i16, mn as i16, bp as i16, bc as i16, bn as i16,
            ) as usize;
        }
    }
    assert_eq!(sum, 0);
}
