use one_last_image::color::{
    adjust_brightness, colorize_gray, colorize_kiss, flatten_on_white, get_gradient_color,
    quantize_tones, to_luminance,
};
use one_last_image::plane::{Plane, RgbaBuffer};

fn rgba(width: u32, height: u32, pixels: Vec<u8>) -> RgbaBuffer {
    RgbaBuffer { width, height, pixels }
}

#[test]
fn gradient_start_end_and_midpoint() {
    assert_eq!(get_gradient_color(0, 7), (251, 186, 48));
    assert_eq!(get_gradient_color(7, 7), (62, 182, 218));
    assert_eq!(get_gradient_color(9, 7), (62, 182, 218));
    // Halfway between the first two stops (t = 0.2): the means, rounded down.
    assert_eq!(get_gradient_color(1, 5), (251, 150, 50));
    // Exactly on the third stop (t = 0.6).
    assert_eq!(get_gradient_color(3, 5), (252, 53, 78));
}

#[test]
fn luminance_is_rounded_down() {
    let img = rgba(3, 1, vec![255, 0, 0, 255, 128, 128, 128, 255, 10, 20, 30, 0]);
    // 76.245 -> 76; 128; 2.99 + 11.74 + 3.42 = 18.15 -> 18.
    assert_eq!(to_luminance(&img).data, vec![76, 128, 18]);
}

#[test]
fn brightness_offsets_by_percent() {
    let p = Plane { width: 3, height: 1, data: vec![100, 200, 7] };
    assert_eq!(adjust_brightness(&p, 50).data, vec![150, 255, 10]);
    assert_eq!(adjust_brightness(&p, -150).data, vec![0, 0, 0]);
    assert_eq!(adjust_brightness(&p, 0).data, vec![100, 200, 7]);
}

#[test]
fn gray_colorization_is_opaque_gray() {
    let p = Plane { width: 2, height: 1, data: vec![9, 200] };
    assert_eq!(colorize_gray(&p).pixels, vec![9, 9, 9, 255, 200, 200, 200, 255]);
}

#[test]
fn kiss_colorization_follows_position() {
    let p = Plane { width: 2, height: 1, data: vec![0, 255] };
    let c = colorize_kiss(&p);
    // (0, 0): t = 0, opaque ink; (1, 0): t = 1 / 3, fully transparent.
    assert_eq!(&c.pixels[0..4], &[251, 186, 48, 255]);
    let (r, g, b) = get_gradient_color(1, 3);
    assert_eq!(&c.pixels[4..8], &[r, g, b, 0]);
}

#[test]
fn two_tones_are_black_and_white() {
    let pixels: Vec<u8> = (0..=255u8).flat_map(|v| [v, v, v, 255]).collect();
    let q = quantize_tones(&rgba(256, 1, pixels), 2);
    let mut levels: Vec<u8> = q.pixels.iter().enumerate().filter(|(i, _)| i % 4 != 3).map(|(_, v)| *v).collect();
    levels.sort();
    levels.dedup();
    assert_eq!(levels, vec![0, 255]);
    assert!(q.pixels.iter().skip(3).step_by(4).all(|a| *a == 255));
    // 127 rounds down to black, 128 up to white.
    assert_eq!(q.pixels[127 * 4], 0);
    assert_eq!(q.pixels[128 * 4], 255);
}

#[test]
fn three_tones_have_mid_level() {
    let q = quantize_tones(&rgba(3, 1, vec![0, 64, 200, 7, 127, 128, 191, 9, 255, 250, 60, 1]), 3);
    assert_eq!(q.pixels, vec![0, 127, 255, 7, 127, 127, 127, 9, 255, 255, 0, 1]);
}

#[test]
fn flatten_on_white_blends_by_alpha() {
    let img = rgba(3, 1, vec![0, 0, 0, 0, 100, 50, 25, 255, 0, 0, 0, 128]);
    // transparent -> white; opaque -> unchanged; half -> 255 * 127 / 255 = 127.
    assert_eq!(
        flatten_on_white(&img).pixels,
        vec![255, 255, 255, 255, 100, 50, 25, 255, 127, 127, 127, 255]
    );
}
