use vstd::prelude::*;
use crate::kernel::{Kernel, KernelModel, Quality, quality_of, box_size, box_model, get_kernel};
use crate::plane::{Plane, RgbaBuffer};
use crate::convolve::{convolve, convolved};
use crate::tone::{high_pass, high_passed, contrast_remap, remapped, unsharp_mask, sharpened};
use crate::smaa::{edge_magnitude, edge_plane, smaa_antialiasing, antialiased};
use crate::color::{
    to_luminance, luminance_plane, adjust_brightness, brightened, colorize_gray, gray_rgba,
    colorize_kiss, kiss_rgba, quantize_tones, quantized, flatten_on_white, flattened,
};
use crate::watermark::{
    crop_half, cropped_half, watermark_size, watermark_dims, watermark_position, watermark_anchor,
    blend_watermark, overlaid, sat_u32,
};
use crate::codec::{
    decode_rgba, decoded_image, encode_png, png_encoding, resize_rgba, resampled,
    decode_base64, base64_decoded,
};

verus! {

/// Sharpening strength of the finishing pass, in percent.
pub const SHARPEN_PERCENT: u32 = 100;

/// Caller options; every field is optional and has a default.
pub struct OLIConfig {
    /// Downscale divisor in thousandths (1000 keeps the size); zero or absent keeps the size.
    pub zoom_milli: Option<u32>,
    pub cover: Option<bool>,
    /// Kernel quality by name; absent or unknown means `normal`.
    pub quality: Option<String>,
    pub denoise: Option<bool>,
    pub light_cut: Option<u8>,
    pub dark_cut: Option<u8>,
    pub shade: Option<bool>,
    pub shade_limit: Option<u8>,
    pub shade_light: Option<u8>,
    pub kiss: Option<bool>,
    pub watermark: Option<bool>,
    /// Base64 text of the watermark asset (no `data:` prefix).
    pub watermark_image: Option<String>,
    pub hajimei: Option<bool>,
    /// Posterization levels; fewer than two disables it.
    pub tone_count: Option<u8>,
    /// Brightness offset in percent.
    pub light: Option<i32>,
    pub pencil_texture: Option<String>,
    /// Largest working width; wider images are scaled down to it.
    pub max_width: Option<u32>,
    pub antialias: Option<bool>,
    pub sharpen: Option<bool>,
}

/// Options with every default applied.
#[derive(PartialEq, Eq, Structural, Clone, Copy, Debug)]
pub struct Settings {
    pub zoom_milli: u32,
    pub max_width: Option<u32>,
    pub quality: Quality,
    pub denoise: bool,
    pub light_cut: u8,
    pub dark_cut: u8,
    pub light: i32,
    pub kiss: bool,
    pub watermark: bool,
    pub hajimei: bool,
    pub tone_count: u8,
    pub antialias: bool,
    pub sharpen: bool,
}

/// The two Gaussian kernels of the pipeline: a light denoise blur and the
/// blur behind the unsharp mask: a 3 x 3 and a 5 x 5 kernel. Both are
/// normalized, so a uniform plane passes through them unchanged.
pub struct Smoothing {
    pub denoise: Kernel,
    pub sharpen_blur: Kernel,
}

impl Smoothing {
    pub open spec fn wf(&self) -> bool {
        &&& self.denoise.wf()
        &&& self.sharpen_blur.wf()
        &&& self.denoise.is_normalized()
        &&& self.sharpen_blur.is_normalized()
        &&& self.denoise.size == 3
        &&& self.sharpen_blur.size == 5
    }
}

pub open spec fn or_else<T>(o: Option<T>, d: T) -> T {
    match o {
        Some(v) => v,
        None => d,
    }
}

/// The settings that a configuration selects.
pub open spec fn settings_of(config: Option<OLIConfig>) -> Settings {
    match config {
        None => Settings {
            zoom_milli: 1000,
            max_width: None,
            quality: Quality::Normal,
            denoise: true,
            light_cut: 128,
            dark_cut: 118,
            light: 0,
            kiss: true,
            watermark: true,
            hajimei: false,
            tone_count: 0,
            antialias: true,
            sharpen: true,
        },
        Some(c) => Settings {
            zoom_milli: match c.zoom_milli {
                Some(z) if z > 0 => z,
                _ => 1000,
            },
            max_width: c.max_width,
            quality: match c.quality {
                Some(q) => quality_of(q@),
                None => Quality::Normal,
            },
            denoise: or_else(c.denoise, true),
            light_cut: or_else(c.light_cut, 128u8),
            dark_cut: or_else(c.dark_cut, 118u8),
            light: or_else(c.light, 0i32),
            kiss: or_else(c.kiss, true),
            watermark: or_else(c.watermark, true),
            hajimei: or_else(c.hajimei, false),
            tone_count: or_else(c.tone_count, 0u8),
            antialias: or_else(c.antialias, true),
            sharpen: or_else(c.sharpen, true),
        },
    }
}

/// Text of the watermark asset that a configuration carries.
pub open spec fn watermark_text(config: Option<OLIConfig>) -> Option<Seq<char>> {
    match config {
        Some(c) => match c.watermark_image {
            Some(t) => Some(t@),
            None => None,
        },
        None => None,
    }
}

/// `v / zoom` rounded half up, with `zoom` in thousandths.
pub open spec fn zoomed(v: int, zoom_milli: int) -> int {
    (2000 * v + zoom_milli) / (2 * zoom_milli)
}

/// Working size: each side divided by the zoom and rounded (saturated to
/// `u32`); a width above the cap becomes the cap, and the height follows in
/// proportion, rounded down.
pub open spec fn working_dims(w: int, h: int, zoom_milli: int, cap: Option<u32>) -> (u32, u32) {
    let zw = sat_u32(zoomed(w, zoom_milli));
    let zh = sat_u32(zoomed(h, zoom_milli));
    match cap {
        Some(c) if zw > c => (c, (zh as int * c as int / zw as int) as u32),
        _ => (zw, zh),
    }
}

/// Whether a `w` x `h` working image can be processed: no side is zero and
/// its RGBA bytes fit in memory.
pub open spec fn processable(w: int, h: int) -> bool {
    w >= 1 && h >= 1 && 4 * (w * h) <= usize::MAX
}

/// The tone plane of a resampled image: luminance, brightness, denoise,
/// quality kernel, contrast remap and finishing passes.
pub open spec fn tone_stage(w: int, h: int, px: Seq<u8>, s: Settings, k: (KernelModel, KernelModel)) -> Seq<u8> {
    let g0 = luminance_plane(px, w * h);
    let g1 = if s.light == 0 {
        g0
    } else {
        brightened(g0, s.light)
    };
    let g2 = if s.denoise {
        convolved(w, h, g1, k.0)
    } else {
        g1
    };
    let t0 = match box_size(s.quality) {
        Some(n) => high_passed(g2, convolved(w, h, g2, box_model(n as int))),
        None => edge_plane(w, h, g2),
    };
    let t1 = if box_size(s.quality) is Some && (s.light_cut > 0 || s.dark_cut > 0) {
        remapped(t0, s.light_cut, s.dark_cut)
    } else {
        t0
    };
    let t2 = if s.antialias {
        antialiased(w, h, t1)
    } else {
        t1
    };
    if s.sharpen {
        sharpened(t2, convolved(w, h, t2, k.1), SHARPEN_PERCENT)
    } else {
        t2
    }
}

/// Opaque RGBA of a tone plane: colorized, posterized, then flattened on white.
pub open spec fn color_stage(w: int, h: int, t: Seq<u8>, s: Settings) -> Seq<u8> {
    let c0 = if s.kiss {
        kiss_rgba(w, h, t)
    } else {
        gray_rgba(t)
    };
    let c1 = if s.tone_count >= 2 {
        quantized(c0, s.tone_count)
    } else {
        c0
    };
    flattened(c1)
}

/// The canvas with the watermark asset overlaid, when the asset decodes to a
/// usable image; else the canvas unchanged.
pub open spec fn watermark_stage(w: int, h: int, canvas: Seq<u8>, asset: Seq<u8>, hajimei: bool) -> Seq<u8> {
    match decoded_image(asset) {
        Some((mw, mh, mp)) => {
            let half = mh / 2;
            if mw >= 1 && half >= 1 && mp.len() == 4 * (mw * mh) {
                let (sw, sh) = watermark_dims(w, h, mw as int, half as int);
                if 4 * (sw * sh) <= usize::MAX {
                    let rz = resampled(mw, half, cropped_half(mw as int, mh as int, mp, hajimei), sw, sh);
                    let (sx, sy) = watermark_anchor(w, h, sw as int, sh as int);
                    overlaid(w, canvas, sw as int, sh as int, rz, sx as int, sy as int)
                } else {
                    canvas
                }
            } else {
                canvas
            }
        },
        None => canvas,
    }
}

/// The final image of the transform, as width, height and RGBA bytes, or
/// `None` when the input cannot be decoded or processed.
pub open spec fn rendered(input: Seq<u8>, config: Option<OLIConfig>, k: (KernelModel, KernelModel)) -> Option<(u32, u32, Seq<u8>)> {
    let s = settings_of(config);
    match decoded_image(input) {
        None => None,
        Some((ow, oh, px)) => {
            let (w, h) = working_dims(ow as int, oh as int, s.zoom_milli as int, s.max_width);
            if !(px.len() == 4 * (ow * oh)) || !processable(w as int, h as int) {
                None
            } else {
                let rs = resampled(ow, oh, px, w, h);
                let canvas = color_stage(w as int, h as int, tone_stage(w as int, h as int, rs, s, k), s);
                let fin = match watermark_text(config) {
                    Some(t) if s.watermark => match base64_decoded(t) {
                        Some(asset) => watermark_stage(w as int, h as int, canvas, asset, s.hajimei),
                        None => canvas,
                    },
                    _ => canvas,
                };
                Some((w, h, fin))
            }
        },
    }
}

/// Bytes the whole transform returns for `input`: the PNG encoding of the
/// rendered image, or `input` itself whenever a step fails.
pub open spec fn output_bytes(input: Seq<u8>, config: Option<OLIConfig>, k: (KernelModel, KernelModel)) -> Seq<u8> {
    match rendered(input, config, k) {
        None => input,
        Some((w, h, fin)) => match png_encoding(w, h, fin) {
            Some(b) => b,
            None => input,
        },
    }
}

fn copy_bytes(b: &[u8]) -> (r: Vec<u8>)
    ensures
        r@ == b@,
{
    let mut out: Vec<u8> = Vec::new();
    let mut i: usize = 0;
    while i < b.len()
        invariant
            i <= b@.len(),
            out@ == b@.subrange(0, i as int),
        decreases b@.len() - i,
    {
        out.push(b[i]);
        i += 1;
        assert(out@ =~= b@.subrange(0, i as int));
    }
    assert(out@ =~= b@);
    out
}

fn flag_or(o: Option<bool>, d: bool) -> (r: bool)
    ensures
        r == or_else(o, d),
{
    match o {
        Some(v) => v,
        None => d,
    }
}

fn byte_or(o: Option<u8>, d: u8) -> (r: u8)
    ensures
        r == or_else(o, d),
{
    match o {
        Some(v) => v,
        None => d,
    }
}

/// Applies the defaults to a configuration.
pub fn resolve_settings(config: &Option<OLIConfig>) -> (s: Settings)
    ensures
        s == settings_of(*config),
{
    match config {
        None => Settings {
            zoom_milli: 1000,
            max_width: None,
            quality: Quality::Normal,
            denoise: true,
            light_cut: 128,
            dark_cut: 118,
            light: 0,
            kiss: true,
            watermark: true,
            hajimei: false,
            tone_count: 0,
            antialias: true,
            sharpen: true,
        },
        Some(c) => Settings {
            zoom_milli: match c.zoom_milli {
                Some(z) if z > 0 => z,
                _ => 1000,
            },
            max_width: c.max_width,
            quality: match &c.quality {
                Some(q) => Quality::from_name(q.as_str()),
                None => Quality::Normal,
            },
            denoise: flag_or(c.denoise, true),
            light_cut: byte_or(c.light_cut, 128),
            dark_cut: byte_or(c.dark_cut, 118),
            light: match c.light {
                Some(v) => v,
                None => 0,
            },
            kiss: flag_or(c.kiss, true),
            watermark: flag_or(c.watermark, true),
            hajimei: flag_or(c.hajimei, false),
            tone_count: byte_or(c.tone_count, 0),
            antialias: flag_or(c.antialias, true),
            sharpen: flag_or(c.sharpen, true),
        },
    }
}

fn zoom_side(v: u32, zoom_milli: u32) -> (r: u32)
    requires
        zoom_milli > 0,
    ensures
        r == sat_u32(zoomed(v as int, zoom_milli as int)),
{
    let q = (2000 * (v as u64) + zoom_milli as u64) / (2 * (zoom_milli as u64));
    if q > u32::MAX as u64 {
        u32::MAX
    } else {
        q as u32
    }
}

/// Working size of a `w` x `h` image under a zoom (in thousandths) and an
/// optional width cap.
pub fn working_size(w: u32, h: u32, zoom_milli: u32, cap: Option<u32>) -> (r: (u32, u32))
    requires
        zoom_milli > 0,
    ensures
        r == working_dims(w as int, h as int, zoom_milli as int, cap),
{
    let zw = zoom_side(w, zoom_milli);
    let zh = zoom_side(h, zoom_milli);
    match cap {
        Some(c) if zw > c => {
            assert((zh as int) * (c as int) <= (zh as int) * (zw as int)) by (nonlinear_arith)
                requires
                    c < zw,
                    zh >= 0,
            ;
            assert((zh as int) * (c as int) / (zw as int) <= zh) by {
                vstd::arithmetic::div_mod::lemma_div_is_ordered(
                    (zh as int) * (c as int),
                    (zh as int) * (zw as int),
                    zw as int,
                );
                vstd::arithmetic::div_mod::lemma_div_multiples_vanish(zh as int, zw as int);
                assert((zh as int) * (zw as int) == (zw as int) * (zh as int)) by (nonlinear_arith);
            }
            assert((zh as u64) * (c as u64) <= 4294967295u64 * 4294967295u64) by (nonlinear_arith)
                requires
                    zh <= 4294967295u64,
                    c <= 4294967295u64,
            ;
            (c, ((zh as u64) * (c as u64) / (zw as u64)) as u32)
        },
        _ => (zw, zh),
    }
}

/// Tone plane of a resampled image.
fn tone_plane(img: &RgbaBuffer, s: &Settings, k: &Smoothing) -> (r: Plane)
    requires
        img.wf(),
        img.width >= 1,
        img.height >= 1,
        k.wf(),
    ensures
        r.wf(),
        r.width == img.width,
        r.height == img.height,
        r.data@ == tone_stage(
            img.width as int,
            img.height as int,
            img.pixels@,
            *s,
            (k.denoise@, k.sharpen_blur@),
        ),
{
    let g0 = to_luminance(img);
    let g1 = if s.light == 0 {
        g0
    } else {
        adjust_brightness(&g0, s.light)
    };
    let g2 = if s.denoise {
        convolve(&g1, &k.denoise)
    } else {
        g1
    };
    let kernel = get_kernel(s.quality);
    let boxed = match &kernel {
        Some(_) => true,
        None => false,
    };
    let t0 = match &kernel {
        Some(kk) => {
            let blurred = convolve(&g2, kk);
            high_pass(&g2, &blurred)
        },
        None => edge_magnitude(&g2),
    };
    let t1 = if boxed && (s.light_cut > 0 || s.dark_cut > 0) {
        contrast_remap(&t0, s.light_cut, s.dark_cut)
    } else {
        t0
    };
    let t2 = if s.antialias {
        smaa_antialiasing(&t1)
    } else {
        t1
    };
    if s.sharpen {
        unsharp_mask(&t2, &k.sharpen_blur, SHARPEN_PERCENT)
    } else {
        t2
    }
}

/// Opaque RGBA canvas of a tone plane.
fn color_canvas(t: &Plane, s: &Settings) -> (r: RgbaBuffer)
    requires
        t.wf(),
    ensures
        r.wf(),
        r.width == t.width,
        r.height == t.height,
        r.pixels@ == color_stage(t.width as int, t.height as int, t.data@, *s),
{
    let c0 = if s.kiss {
        colorize_kiss(t)
    } else {
        colorize_gray(t)
    };
    let c1 = if s.tone_count >= 2 {
        quantize_tones(&c0, s.tone_count)
    } else {
        c0
    };
    flatten_on_white(&c1)
}

/// Overlays an encoded watermark asset on the canvas; an asset that does not
/// decode to a usable image leaves the canvas unchanged.
fn apply_watermark(canvas: &RgbaBuffer, asset: &[u8], hajimei: bool) -> (r: RgbaBuffer)
    requires
        canvas.wf(),
        canvas.width >= 1,
    ensures
        r.wf(),
        r.width == canvas.width,
        r.height == canvas.height,
        r.pixels@ == watermark_stage(
            canvas.width as int,
            canvas.height as int,
            canvas.pixels@,
            asset@,
            hajimei,
        ),
{
    let wm = match decode_rgba(asset) {
        Some(img) => img,
        None => return copy_rgba(canvas),
    };
    let half = wm.height / 2;
    if wm.width < 1 || half < 1 || (wm.pixels.len() as u128) != rgba_len(wm.width, wm.height) {
        return copy_rgba(canvas);
    }
    let cropped = crop_half(&wm, hajimei);
    let (sw, sh) = watermark_size(canvas.width, canvas.height, wm.width, half);
    if rgba_len(sw, sh) > usize::MAX as u128 {
        return copy_rgba(canvas);
    }
    let resized = resize_rgba(&cropped, sw, sh);
    let (sx, sy) = watermark_position(canvas.width, canvas.height, sw, sh);
    blend_watermark(canvas, &resized, sx, sy)
}

/// Number of RGBA bytes of a `w` x `h` image.
fn rgba_len(w: u32, h: u32) -> (r: u128)
    ensures
        r == 4 * (w * h),
{
    assert(4 * ((w as int) * (h as int)) <= 4 * (4294967295 * 4294967295)) by (nonlinear_arith)
        requires
            w <= 4294967295,
            h <= 4294967295,
    ;
    4 * ((w as u128) * (h as u128))
}

fn copy_rgba(img: &RgbaBuffer) -> (r: RgbaBuffer)
    ensures
        r.width == img.width,
        r.height == img.height,
        r.pixels@ == img.pixels@,
{
    RgbaBuffer { width: img.width, height: img.height, pixels: copy_bytes(img.pixels.as_slice()) }
}

/// Renders encoded image bytes as line art and returns the PNG encoding; when
/// the input does not decode, or any later step fails, returns the input
/// unchanged.
pub fn one_last_image_with_config(input: &[u8], config: Option<OLIConfig>, smoothing: &Smoothing) -> (r: Vec<u8>)
    requires
        smoothing.wf(),
    ensures
        r@ == output_bytes(input@, config, (smoothing.denoise@, smoothing.sharpen_blur@)),
        decoded_image(input@) is None ==> r@ == input@,
{
    let s = resolve_settings(&config);
    let img = match decode_rgba(input) {
        Some(i) => i,
        None => return copy_bytes(input),
    };
    let (w, h) = working_size(img.width, img.height, s.zoom_milli, s.max_width);
    if (img.pixels.len() as u128) != rgba_len(img.width, img.height) || w < 1 || h < 1 || rgba_len(
        w,
        h,
    ) > usize::MAX as u128 {
        return copy_bytes(input);
    }
    let resized = resize_rgba(&img, w, h);
    let tones = tone_plane(&resized, &s, smoothing);
    let canvas = color_canvas(&tones, &s);
    let fin = match &config {
        Some(c) => match &c.watermark_image {
            Some(text) => {
                if s.watermark {
                    match decode_base64(text.as_str()) {
                        Some(asset) => apply_watermark(&canvas, asset.as_slice(), s.hajimei),
                        None => canvas,
                    }
                } else {
                    canvas
                }
            },
            None => canvas,
        },
        None => canvas,
    };
    match encode_png(&fin) {
        Some(bytes) => bytes,
        None => copy_bytes(input),
    }
}

/// Without zoom and without a width cap the working size is the decoded size.
pub proof fn lemma_unit_zoom_keeps_size(w: u32, h: u32)
    ensures
        working_dims(w as int, h as int, 1000, None) == (w, h),
{
    vstd::arithmetic::div_mod::lemma_fundamental_div_mod_converse(
        2000 * w as int + 1000,
        2000,
        w as int,
        1000,
    );
    vstd::arithmetic::div_mod::lemma_fundamental_div_mod_converse(
        2000 * h as int + 1000,
        2000,
        h as int,
        1000,
    );
}

/// Turning the watermark off gives the same bytes as leaving it on with no
/// watermark asset, all other options being equal.
pub proof fn lemma_watermark_off_same_as_no_asset(
    input: Seq<u8>,
    off: OLIConfig,
    absent: OLIConfig,
    k: (KernelModel, KernelModel),
)
    requires
        off.watermark == Some(false),
        absent.watermark == Some(true),
        absent.watermark_image is None,
        off.zoom_milli == absent.zoom_milli,
        off.quality == absent.quality,
        off.denoise == absent.denoise,
        off.light_cut == absent.light_cut,
        off.dark_cut == absent.dark_cut,
        off.kiss == absent.kiss,
        off.hajimei == absent.hajimei,
        off.tone_count == absent.tone_count,
        off.light == absent.light,
        off.max_width == absent.max_width,
        off.antialias == absent.antialias,
        off.sharpen == absent.sharpen,
    ensures
        output_bytes(input, Some(off), k) == output_bytes(input, Some(absent), k),
{
    let s1 = settings_of(Some(off));
    let s2 = settings_of(Some(absent));
    assert(s1.zoom_milli == s2.zoom_milli && s1.max_width == s2.max_width && s1.quality
        == s2.quality);
    match decoded_image(input) {
        None => {},
        Some((ow, oh, px)) => {
            let (w, h) = working_dims(ow as int, oh as int, s1.zoom_milli as int, s1.max_width);
            let rs = resampled(ow, oh, px, w, h);
            assert(tone_stage(w as int, h as int, rs, s1, k) == tone_stage(w as int, h as int, rs, s2, k));
            assert(color_stage(w as int, h as int, tone_stage(w as int, h as int, rs, s1, k), s1)
                == color_stage(w as int, h as int, tone_stage(w as int, h as int, rs, s2, k), s2));
        },
    }
}

/// With kiss off and two tone levels the colour stage gives only bytes 0 and 255.
pub proof fn lemma_two_tone_gray_canvas(w: int, h: int, t: Seq<u8>, s: Settings)
    requires
        !s.kiss,
        s.tone_count == 2,
    ensures
        forall|j: int|
            0 <= j < color_stage(w, h, t, s).len() ==> #[trigger] color_stage(w, h, t, s)[j] == 0
                || color_stage(w, h, t, s)[j] == 255,
{
    let c0 = gray_rgba(t);
    let c1 = quantized(c0, 2);
    assert forall|j: int| 0 <= j < c1.len() implies #[trigger] c1[j] == 0 || c1[j] == 255 by {
        if j % 4 != 3 {
            crate::color::lemma_two_tones(c0[j]);
        }
    }
    assert forall|j: int|
        0 <= j < color_stage(w, h, t, s).len() implies #[trigger] color_stage(w, h, t, s)[j] == 0
            || color_stage(w, h, t, s)[j] == 255 by {
        if j % 4 != 3 {
            let k = j - j % 4 + 3;
            assert(k % 4 == 3 && 0 <= k < c1.len());
            assert(c1[k] == 255);
            let v = c1[j] as int;
            assert((v * 255 + 255 * (255 - 255)) / 255 == v) by (nonlinear_arith);
        }
    }
}

/// Two tone levels, with kiss and the watermark off: every byte of the
/// rendered image is 0 or 255, so its pixels are black or white.
pub proof fn lemma_two_tones_render_black_and_white(
    input: Seq<u8>,
    config: Option<OLIConfig>,
    k: (KernelModel, KernelModel),
)
    requires
        config matches Some(c) && c.kiss == Some(false) && c.tone_count == Some(2u8) && c.watermark
            == Some(false),
    ensures
        rendered(input, config, k) matches Some((w, h, f)) ==> forall|j: int|
            0 <= j < f.len() ==> f[j] == 0 || f[j] == 255,
{
    let s = settings_of(config);
    match decoded_image(input) {
        None => {},
        Some((ow, oh, px)) => {
            let (w, h) = working_dims(ow as int, oh as int, s.zoom_milli as int, s.max_width);
            let rs = resampled(ow, oh, px, w, h);
            lemma_two_tone_gray_canvas(w as int, h as int, tone_stage(w as int, h as int, rs, s, k), s);
        },
    }
}

/// Every pixel of an RGBA byte sequence is the opaque gray `(v, v, v, 255)`.
pub open spec fn uniform_opaque_gray(px: Seq<u8>, v: u8) -> bool {
    forall|j: int| 0 <= j < px.len() ==> #[trigger] px[j] == if j % 4 == 3 {
        255u8
    } else {
        v
    }
}

/// Every byte of a plane equals its first.
pub open spec fn is_uniform(t: Seq<u8>) -> bool {
    forall|i: int| 0 <= i < t.len() ==> #[trigger] t[i] == t[0]
}

proof fn lemma_tone_stage_uniform(w: int, h: int, px: Seq<u8>, v: u8, s: Settings, k: Smoothing)
    requires
        w >= 1,
        h >= 1,
        px.len() == 4 * (w * h),
        uniform_opaque_gray(px, v),
        k.wf(),
    ensures
        tone_stage(w, h, px, s, (k.denoise@, k.sharpen_blur@)).len() == w * h,
        is_uniform(tone_stage(w, h, px, s, (k.denoise@, k.sharpen_blur@))),
{
    let n = w * h;
    assert(n >= 1) by (nonlinear_arith)
        requires
            w >= 1,
            h >= 1,
            n == w * h,
    ;
    let g0 = luminance_plane(px, n);
    let c0 = crate::color::luma(v, v, v);
    assert forall|i: int| 0 <= i < n implies #[trigger] g0[i] == c0 by {
        assert(px[4 * i] == v && px[4 * i + 1] == v && px[4 * i + 2] == v);
    }
    let g1 = if s.light == 0 {
        g0
    } else {
        brightened(g0, s.light)
    };
    let c1 = if s.light == 0 {
        c0
    } else {
        crate::color::brighten_value(c0, s.light)
    };
    assert(forall|i: int| 0 <= i < g1.len() ==> g1[i] == c1);
    crate::kernel::lemma_normalized_averages(k.denoise);
    crate::kernel::lemma_normalized_averages(k.sharpen_blur);
    let g2 = if s.denoise {
        convolved(w, h, g1, k.denoise@)
    } else {
        g1
    };
    if s.denoise {
        crate::convolve::lemma_convolve_uniform(w, h, g1, k.denoise@, c1);
    }
    assert(g2 == g1);
    let t0 = match box_size(s.quality) {
        Some(m) => high_passed(g2, convolved(w, h, g2, box_model(m as int))),
        None => edge_plane(w, h, g2),
    };
    let ct0: u8 = match box_size(s.quality) {
        Some(_) => 128,
        None => 0,
    };
    match box_size(s.quality) {
        Some(m) => {
            crate::kernel::lemma_box_model_averages(m as int);
            crate::convolve::lemma_convolve_uniform(w, h, g2, box_model(m as int), c1);
            assert forall|i: int| 0 <= i < t0.len() implies t0[i] == ct0 by {
                assert(crate::tone::high_pass_value(c1, c1) == 128);
            }
        },
        None => {
            crate::smaa::lemma_uniform_has_no_edges(w, h, g2, c1);
        },
    }
    assert(t0.len() == n);
    let t1 = if box_size(s.quality) is Some && (s.light_cut > 0 || s.dark_cut > 0) {
        remapped(t0, s.light_cut, s.dark_cut)
    } else {
        t0
    };
    let ct1 = if box_size(s.quality) is Some && (s.light_cut > 0 || s.dark_cut > 0) {
        crate::tone::remap_value(ct0, s.light_cut, s.dark_cut)
    } else {
        ct0
    };
    assert(forall|i: int| 0 <= i < t1.len() ==> t1[i] == ct1);
    crate::smaa::lemma_uniform_has_no_edges(w, h, t1, ct1);
    let t2 = if s.antialias {
        antialiased(w, h, t1)
    } else {
        t1
    };
    assert(t2 == t1);
    crate::convolve::lemma_convolve_uniform(w, h, t2, k.sharpen_blur@, ct1);
    let t3 = if s.sharpen {
        sharpened(t2, convolved(w, h, t2, k.sharpen_blur@), SHARPEN_PERCENT)
    } else {
        t2
    };
    assert((100 * ct1 as int + SHARPEN_PERCENT as int * (ct1 as int - ct1 as int)) / 100
        == ct1 as int);
    assert(forall|i: int| 0 <= i < t3.len() ==> t3[i] == ct1);
    assert(t3 == tone_stage(w, h, px, s, (k.denoise@, k.sharpen_blur@)));
}

/// A uniform opaque gray image, colorized in grayscale, comes out as one
/// uniform opaque gray: every pixel is `(g, g, g, 255)` for a single `g`.
pub proof fn lemma_uniform_gray_stays_uniform(w: int, h: int, px: Seq<u8>, v: u8, s: Settings, k: Smoothing)
    requires
        w >= 1,
        h >= 1,
        px.len() == 4 * (w * h),
        uniform_opaque_gray(px, v),
        k.wf(),
        !s.kiss,
    ensures
        uniform_opaque_gray(
            color_stage(w, h, tone_stage(w, h, px, s, (k.denoise@, k.sharpen_blur@)), s),
            color_stage(w, h, tone_stage(w, h, px, s, (k.denoise@, k.sharpen_blur@)), s)[0],
        ),
        color_stage(w, h, tone_stage(w, h, px, s, (k.denoise@, k.sharpen_blur@)), s).len() == 4 * (w
            * h),
{
    lemma_tone_stage_uniform(w, h, px, v, s, k);
    let t = tone_stage(w, h, px, s, (k.denoise@, k.sharpen_blur@));
    let u = t[0];
    let c0 = gray_rgba(t);
    let c1 = if s.tone_count >= 2 {
        quantized(c0, s.tone_count)
    } else {
        c0
    };
    let g = if s.tone_count >= 2 {
        crate::color::quantize_value(u, s.tone_count)
    } else {
        u
    };
    assert forall|j: int| 0 <= j < c1.len() implies #[trigger] c1[j] == if j % 4 == 3 {
        255u8
    } else {
        g
    } by {
        assert(t[j / 4] == u);
    }
    let out = flattened(c1);
    assert forall|j: int| 0 <= j < out.len() implies #[trigger] out[j] == if j % 4 == 3 {
        255u8
    } else {
        g
    } by {
        if j % 4 != 3 {
            let q = j - j % 4 + 3;
            assert(q % 4 == 3 && 0 <= q < c1.len());
            assert((g as int * 255 + 255 * (255 - 255)) / 255 == g as int) by (nonlinear_arith);
        }
    }
    assert(w * h >= 1) by (nonlinear_arith)
        requires
            w >= 1,
            h >= 1,
    ;
    assert(out.len() == 4 * (w * h));
    assert(out[0] == g);
}

/// The end-to-end gray scenario: with the default zoom and no width cap,
/// kiss off and no watermark asset, an input that decodes to a uniform
/// opaque gray renders at its own size as a single uniform opaque gray, with
/// equal red, green and blue.
pub proof fn lemma_uniform_gray_input_renders_uniform(
    input: Seq<u8>,
    config: Option<OLIConfig>,
    k: Smoothing,
    v: u8,
)
    requires
        k.wf(),
        config matches Some(c) && c.kiss == Some(false) && c.watermark_image is None
            && c.zoom_milli is None && c.max_width is None,
    ensures
        decoded_image(input) matches Some((ow, oh, px)) ==> (uniform_opaque_gray(px, v) ==> (
        rendered(input, config, (k.denoise@, k.sharpen_blur@)) matches Some((w, h, f)) ==> w == ow
            && h == oh && uniform_opaque_gray(f, f[0]))),
{
    let s = settings_of(config);
    match decoded_image(input) {
        None => {},
        Some((ow, oh, px)) => {
            lemma_unit_zoom_keeps_size(ow, oh);
            let (w, h) = working_dims(ow as int, oh as int, s.zoom_milli as int, s.max_width);
            assert(w == ow && h == oh);
            let rs = resampled(ow, oh, px, w, h);
            assert(rs == px);
            if px.len() == 4 * (ow * oh) && processable(w as int, h as int) && uniform_opaque_gray(px, v) {
                lemma_uniform_gray_stays_uniform(w as int, h as int, rs, v, s, k);
            }
        },
    }
}

} // verus!
