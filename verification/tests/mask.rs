use fntforge::mask::{box_blur, invert_mask, morph, sample_u8, translate_mask, triple_box_blur};

#[test]
fn sampling_is_zero_outside() {
    let m = [1u8, 2, 3, 4, 5, 6];
    assert_eq!(sample_u8(&m, 3, 2, 2, 1), 6);
    assert_eq!(sample_u8(&m, 3, 2, 0, 1), 4);
    assert_eq!(sample_u8(&m, 3, 2, -1, 0), 0);
    assert_eq!(sample_u8(&m, 3, 2, 3, 0), 0);
    assert_eq!(sample_u8(&m, 3, 2, 0, 2), 0);
}

fn reference_box_blur(src: &[u8], w: u32, h: u32, r: i32) -> Vec<u8> {
    let at = |m: &[u8], x: i32, y: i32| -> f32 {
        if x < 0 || y < 0 || x >= w as i32 || y >= h as i32 { 0.0 } else { m[(y as u32 * w + x as u32) as usize] as f32 }
    };
    let wr = (2 * r + 1) as f32;
    let mut tmp = vec![0u8; src.len()];
    for y in 0..h as i32 {
        for x in 0..w as i32 {
            let s: f32 = (-r..=r).map(|d| at(src, x + d, y)).sum();
            tmp[(y as u32 * w + x as u32) as usize] = (s / wr).round() as u8;
        }
    }
    let mut out = vec![0u8; src.len()];
    for y in 0..h as i32 {
        for x in 0..w as i32 {
            let s: f32 = (-r..=r).map(|d| at(&tmp, x, y + d)).sum();
            out[(y as u32 * w + x as u32) as usize] = (s / wr).round() as u8;
        }
    }
    out
}

#[test]
fn box_blur_of_a_dot() {
    let mut m = vec![0u8; 25];
    m[12] = 255;
    let b = box_blur(&m, 5, 5, 1);
    // 255 / 3 = 85 on each pass
    assert_eq!(b[12], 28);
    assert_eq!(b[6], 28);
    assert_eq!(b[0], 0);
    assert_eq!(b.iter().filter(|&&v| v > 0).count(), 9);
    assert_eq!(b, reference_box_blur(&m, 5, 5, 1));
}

#[test]
fn box_blur_matches_float_rounding() {
    let w = 9u32;
    let h = 6u32;
    let m: Vec<u8> = (0..w * h).map(|i| ((i * 73 + 11) % 256) as u8).collect();
    for r in 0..4 {
        assert_eq!(box_blur(&m, w, h, r), reference_box_blur(&m, w, h, r), "radius {r}");
    }
    assert_eq!(box_blur(&m, w, h, 0), m);
}

#[test]
fn three_passes() {
    let w = 8u32;
    let h = 8u32;
    let m: Vec<u8> = (0..w * h).map(|i| if i % 5 == 0 { 255 } else { 0 }).collect();
    let once = reference_box_blur(&m, w, h, 2);
    let twice = reference_box_blur(&once, w, h, 2);
    let thrice = reference_box_blur(&twice, w, h, 2);
    assert_eq!(triple_box_blur(&m, w, h, 2), thrice);
}

#[test]
fn dilation_and_erosion() {
    // a single lit pixel in a 5x5 mask
    let mut m = vec![0u8; 25];
    m[12] = 200;
    // radius 1, disc dx²+dy² <= 1: a plus shape
    let d = morph(&m, 5, 5, 1, 1, true);
    assert_eq!(d[12], 200);
    assert_eq!(d[7], 200);
    assert_eq!(d[11], 200);
    assert_eq!(d[6], 0);
    // limit 2 takes the diagonals too
    let d2 = morph(&m, 5, 5, 1, 2, true);
    assert_eq!(d2[6], 200);
    assert_eq!(d2[0], 0);
    // erosion: zero outside the mask counts, so the border goes dark
    let full = vec![255u8; 25];
    let e = morph(&full, 5, 5, 1, 1, false);
    assert_eq!(e[12], 255);
    assert_eq!(e[0], 0);
    assert_eq!(e[2], 0);
    // radius 0 leaves the mask alone
    assert_eq!(morph(&m, 5, 5, 0, 9, true), m);
    // an empty disc: dilation gives 0, erosion 255
    assert_eq!(morph(&full, 5, 5, 1, -1, true), vec![0u8; 25]);
    assert_eq!(morph(&m, 5, 5, 1, -1, false), vec![255u8; 25]);
}

#[test]
fn padding_and_shifting() {
    let m = [1u8, 2, 3, 4];
    let p = translate_mask(&m, 2, 2, 1, 1, 4, 4);
    assert_eq!(p, vec![0, 0, 0, 0, 0, 1, 2, 0, 0, 3, 4, 0, 0, 0, 0, 0]);
    let s = translate_mask(&m, 2, 2, 1, 0, 2, 2);
    assert_eq!(s, vec![0, 1, 0, 3]);
    let up = translate_mask(&m, 2, 2, 0, -1, 2, 2);
    assert_eq!(up, vec![3, 4, 0, 0]);
}

#[test]
fn inversion() {
    assert_eq!(invert_mask(&[0, 1, 254, 255]), vec![255, 254, 1, 0]);
    assert_eq!(invert_mask(&[]), Vec::<u8>::new());
}
