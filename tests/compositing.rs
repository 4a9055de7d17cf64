use one_last_image::plane::RgbaBuffer;
use one_last_image::watermark::{blend_watermark, crop_half, watermark_position, watermark_size};

fn rgba(width: u32, height: u32, pixels: Vec<u8>) -> RgbaBuffer {
    RgbaBuffer { width, height, pixels }
}

#[test]
fn crop_takes_top_or_bottom_half() {
    // 1 x 3 image: rows 0, 1, 2; a half is one row.
    let img = rgba(1, 3, vec![1, 1, 1, 1, 2, 2, 2, 2, 3, 3, 3, 3]);
    let top = crop_half(&img, false);
    assert_eq!((top.width, top.height), (1, 1));
    assert_eq!(top.pixels, vec![1, 1, 1, 1]);
    assert_eq!(crop_half(&img, true).pixels, vec![2, 2, 2, 2]);
}

#[test]
fn watermark_size_landscape_and_portrait() {
    // Landscape 400 x 200: height 15% = 30, width 30 * 100 / 50 = 60.
    assert_eq!(watermark_size(400, 200, 100, 50), (60, 30));
    // Ratio exactly 1.1 is not landscape: width 30% of 110 = 33, height 33 * 50 / 100 = 16.
    assert_eq!(watermark_size(110, 100, 100, 50), (33, 16));
}

#[test]
fn watermark_anchor_keeps_margins_and_saturates() {
    // 60 x 30 mark on 400 x 200: x = 400 - (60 + 6) = 334, y = 200 - (30 + 4) = 166.
    assert_eq!(watermark_position(400, 200, 60, 30), (334, 166));
    assert_eq!(watermark_position(10, 10, 60, 30), (0, 0));
}

#[test]
fn blend_watermark_alpha_blends_and_skips_transparent() {
    let canvas = rgba(3, 1, vec![200; 12]);
    let mark = rgba(2, 1, vec![0, 0, 0, 255, 100, 100, 100, 0]);
    let r = blend_watermark(&canvas, &mark, 1, 0);
    assert_eq!(r.pixels, vec![200, 200, 200, 200, 0, 0, 0, 255, 200, 200, 200, 200]);
    let half = rgba(1, 1, vec![0, 0, 0, 51]);
    let r2 = blend_watermark(&canvas, &half, 0, 0);
    // (0 * 51 + 200 * 204) / 255 = 160.
    assert_eq!(&r2.pixels[0..4], &[160, 160, 160, 255]);
}

#[test]
fn blend_watermark_clips_at_canvas_edge() {
    let canvas = rgba(2, 2, vec![10; 16]);
    let mark = rgba(2, 2, vec![255; 16]);
    let r = blend_watermark(&canvas, &mark, 1, 1);
    let mut expected = vec![10u8; 16];
    expected[12..16].copy_from_slice(&[255, 255, 255, 255]);
    assert_eq!(r.pixels, expected);
}
