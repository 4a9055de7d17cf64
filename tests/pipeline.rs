use base64::Engine;
use image::ImageEncoder;
use one_last_image::kernel::{normalized_kernel, Kernel};
use one_last_image::mime::detect_mime;
use one_last_image::pipeline::{
    one_last_image_with_config, resolve_settings, working_size, OLIConfig, Smoothing,
};

fn gaussian(size: usize, sigma: f64) -> Kernel {
    let half = (size / 2) as i64;
    let mut weights = Vec::new();
    for y in 0..size as i64 {
        for x in 0..size as i64 {
            let d = ((x - half) * (x - half) + (y - half) * (y - half)) as f64;
            weights.push(((-d / (2.0 * sigma * sigma)).exp() * 4096.0).round() as i32);
        }
    }
    normalized_kernel(size, weights).unwrap()
}

fn smoothing() -> Smoothing {
    Smoothing { denoise: gaussian(3, 0.8), sharpen_blur: gaussian(5, 0.9) }
}

fn empty_config() -> OLIConfig {
    OLIConfig {
        zoom_milli: None,
        cover: None,
        quality: None,
        denoise: None,
        light_cut: None,
        dark_cut: None,
        shade: None,
        shade_limit: None,
        shade_light: None,
        kiss: None,
        watermark: None,
        watermark_image: None,
        hajimei: None,
        tone_count: None,
        light: None,
        pencil_texture: None,
        max_width: None,
        antialias: None,
        sharpen: None,
    }
}

fn png(img: &image::RgbaImage) -> Vec<u8> {
    let mut out = Vec::new();
    image::codecs::png::PngEncoder::new(&mut out)
        .write_image(img.as_raw(), img.width(), img.height(), image::ExtendedColorType::Rgba8)
        .unwrap();
    out
}

#[test]
fn detect_mime_by_signature() {
    let png_bytes = png(&image::RgbaImage::from_pixel(1, 1, image::Rgba([0, 0, 0, 255])));
    assert_eq!(detect_mime(&png_bytes), "image/png");
    assert_eq!(detect_mime(&[0xFF, 0xD8, 0xFF, 0xE0, 0, 0]), "image/jpeg");
    assert_eq!(detect_mime(b"GIF89a......"), "image/gif");
    assert_eq!(detect_mime(b"not an image"), "application/octet-stream");
    assert_eq!(detect_mime(&[]), "application/octet-stream");
}

#[test]
fn working_size_rounds_and_caps() {
    assert_eq!(working_size(100, 50, 1000, None), (100, 50));
    assert_eq!(working_size(100, 50, 2000, None), (50, 25));
    // 100 / 1.5 = 66.7 -> 67; 50 / 1.5 = 33.3 -> 33.
    assert_eq!(working_size(100, 50, 1500, None), (67, 33));
    // 5 / 2 = 2.5 rounds half up to 3.
    assert_eq!(working_size(5, 5, 2000, None), (3, 3));
    // Cap 40: height 50 * 40 / 100 = 20.
    assert_eq!(working_size(100, 50, 1000, Some(40)), (40, 20));
    assert_eq!(working_size(100, 50, 1000, Some(400)), (100, 50));
}

#[test]
fn defaults_are_applied() {
    let s = resolve_settings(&None);
    assert_eq!((s.zoom_milli, s.light_cut, s.dark_cut, s.kiss, s.watermark), (1000, 128, 118, true, true));
    let mut c = empty_config();
    c.zoom_milli = Some(0);
    c.quality = Some("sketch".to_string());
    let s2 = resolve_settings(&Some(c));
    assert_eq!(s2.zoom_milli, 1000);
    assert_eq!(s2.quality, one_last_image::kernel::Quality::Sketch);
}

#[test]
fn undecodable_input_is_returned_unchanged() {
    let garbage = vec![0x89, b'P', b'N', b'G', 1, 2, 3];
    assert_eq!(one_last_image_with_config(&garbage, None, &smoothing()), garbage);
    assert_eq!(one_last_image_with_config(&[], Some(empty_config()), &smoothing()), Vec::<u8>::new());
}

#[test]
fn output_size_follows_zoom() {
    let input = png(&image::RgbaImage::from_pixel(30, 20, image::Rgba([10, 200, 30, 255])));
    let mut c = empty_config();
    c.zoom_milli = Some(2000);
    c.watermark = Some(false);
    let out = one_last_image_with_config(&input, Some(c), &smoothing());
    let decoded = image::load_from_memory(&out).unwrap();
    assert_eq!((decoded.width(), decoded.height()), (15, 10));
}

#[test]
fn mid_gray_scenario_is_uniform_opaque_gray() {
    let input = png(&image::RgbaImage::from_pixel(100, 100, image::Rgba([128, 128, 128, 255])));
    let mut c = empty_config();
    c.kiss = Some(false);
    let out = one_last_image_with_config(&input, Some(c), &smoothing());
    let img = image::load_from_memory(&out).unwrap().to_rgba8();
    assert_eq!(img.dimensions(), (100, 100));
    let first = *img.get_pixel(0, 0);
    assert_eq!(first[0], first[1]);
    assert_eq!(first[1], first[2]);
    assert!(img.pixels().all(|p| *p == first && p[3] == 255));
}

#[test]
fn watermark_off_matches_absent_asset() {
    let input = png(&image::RgbaImage::from_fn(12, 9, |x, y| image::Rgba([(x * 20) as u8, (y * 25) as u8, 90, 255])));
    let mut off = empty_config();
    off.watermark = Some(false);
    off.watermark_image = Some("aGVsbG8=".to_string());
    let mut absent = empty_config();
    absent.watermark = Some(true);
    let a = one_last_image_with_config(&input, Some(off), &smoothing());
    let b = one_last_image_with_config(&input, Some(absent), &smoothing());
    assert_eq!(a, b);
    assert_ne!(a, input);
}

#[test]
fn watermark_is_overlaid_bottom_right() {
    let input = png(&image::RgbaImage::from_pixel(100, 100, image::Rgba([128, 128, 128, 255])));
    let mark = png(&image::RgbaImage::from_pixel(10, 20, image::Rgba([0, 0, 0, 255])));
    let text = base64_encode(&mark);
    let mut c = empty_config();
    c.kiss = Some(false);
    c.watermark = Some(true);
    c.watermark_image = Some(text);
    let out = one_last_image_with_config(&input, Some(c), &smoothing());
    let img = image::load_from_memory(&out).unwrap().to_rgba8();
    // Portrait: width 30, height 30 * 10 / 10 = 30, anchored at (100 - 36, 100 - 34).
    assert!(img.get_pixel(70, 70)[0] < 10);
    assert_eq!(img.get_pixel(10, 10)[0], 255);
    assert_eq!(img.get_pixel(95, 95)[0], 255);
}

#[test]
fn two_tones_on_a_gradient() {
    let input = png(&image::RgbaImage::from_fn(16, 4, |x, _| {
        let v = (x * 16) as u8;
        image::Rgba([v, v, v, 255])
    }));
    let mut c = empty_config();
    c.kiss = Some(false);
    c.watermark = Some(false);
    c.quality = Some("sketch".to_string());
    c.denoise = Some(false);
    c.antialias = Some(false);
    c.sharpen = Some(false);
    c.tone_count = Some(2);
    let out = one_last_image_with_config(&input, Some(c), &smoothing());
    let img = image::load_from_memory(&out).unwrap().to_rgba8();
    let mut levels: Vec<u8> = img.pixels().flat_map(|p| [p[0], p[1], p[2]]).collect();
    levels.sort();
    levels.dedup();
    assert_eq!(levels, vec![0, 255]);
}

fn base64_encode(bytes: &[u8]) -> String {
    base64::engine::general_purpose::STANDARD.encode(bytes)
}
