use vstd::prelude::*;
use base64::Engine;
use image::ImageEncoder;
use crate::plane::RgbaBuffer;

verus! {

/// Container formats told apart by their leading bytes.
#[derive(PartialEq, Eq, Structural, Clone, Copy, Debug)]
pub enum ImageKind {
    Png,
    Jpeg,
    Gif,
    Bmp,
    Ico,
    Tiff,
    WebP,
    Avif,
    /// A format the codec recognises but that has no entry of its own here.
    Other,
}

/// Width, height and RGBA bytes the codec decodes from a byte sequence whose
/// format it recognises by signature, or `None` when it cannot.
pub uninterp spec fn decoded_image(bytes: Seq<u8>) -> Option<(u32, u32, Seq<u8>)>;

/// PNG bytes the codec writes for an RGBA image, or `None` when it fails.
pub uninterp spec fn png_encoding(width: u32, height: u32, pixels: Seq<u8>) -> Option<Seq<u8>>;

/// RGBA bytes of an image resampled by the codec's Lanczos-3 filter.
pub uninterp spec fn lanczos_resized(
    width: u32,
    height: u32,
    pixels: Seq<u8>,
    new_width: u32,
    new_height: u32,
) -> Seq<u8>;

/// An RGBA image brought to `new_width` x `new_height`: the pixels
/// themselves when the size does not change (the codec then copies the
/// image), else the codec's Lanczos-3 resampling.
pub open spec fn resampled(
    width: u32,
    height: u32,
    pixels: Seq<u8>,
    new_width: u32,
    new_height: u32,
) -> Seq<u8> {
    if new_width == width && new_height == height {
        pixels
    } else {
        lanczos_resized(width, height, pixels, new_width, new_height)
    }
}

/// Bytes of standard base64 text, or `None` when the text is not valid base64.
pub uninterp spec fn base64_decoded(text: Seq<char>) -> Option<Seq<u8>>;

/// Format guessed from the leading bytes, or `None` when no signature matches.
pub uninterp spec fn guessed_format(bytes: Seq<u8>) -> Option<ImageKind>;

/// Relies on `image::guess_format` (a fixed table of signatures), then
/// `image::load_from_memory_with_format` with that built-in format, and
/// `DynamicImage::to_rgba8`: decodes the container into 8-bit RGBA. Naming
/// the format keeps the reader off its process-wide hook registries, so the
/// result depends on the bytes alone.
#[verifier::external_body]
pub fn decode_rgba(bytes: &[u8]) -> (r: Option<RgbaBuffer>)
    ensures
        r matches Some(img) ==> decoded_image(bytes@) == Some((img.width, img.height, img.pixels@)),
        r is None ==> decoded_image(bytes@) is None,
{
    let format = match image::guess_format(bytes) {
        Ok(f) => f,
        Err(_) => return None,
    };
    match image::load_from_memory_with_format(bytes, format) {
        Ok(img) => {
            let rgba = img.to_rgba8();
            Some(RgbaBuffer { width: rgba.width(), height: rgba.height(), pixels: rgba.into_raw() })
        },
        Err(_) => None,
    }
}

/// Relies on `PngEncoder::new_with_quality` (fast compression, adaptive
/// filtering) and `ImageEncoder::write_image`, which asserts that the buffer
/// holds exactly four bytes per pixel.
#[verifier::external_body]
pub fn encode_png(img: &RgbaBuffer) -> (r: Option<Vec<u8>>)
    requires
        img.wf(),
    ensures
        r matches Some(v) ==> png_encoding(img.width, img.height, img.pixels@) == Some(v@),
        r is None ==> png_encoding(img.width, img.height, img.pixels@) is None,
{
    let mut out = Vec::new();
    let encoder = image::codecs::png::PngEncoder::new_with_quality(
        &mut out,
        image::codecs::png::CompressionType::Fast,
        image::codecs::png::FilterType::Adaptive,
    );
    match encoder.write_image(&img.pixels, img.width, img.height, image::ExtendedColorType::Rgba8) {
        Ok(_) => Some(out),
        Err(_) => None,
    }
}

/// Relies on `ImageBuffer::from_raw` (which accepts a buffer of exactly four
/// bytes per pixel) and `imageops::resize` with the Lanczos-3 filter, which
/// returns a buffer of the requested size, four bytes per pixel, and a
/// plain copy when that size is the image's own.
#[verifier::external_body]
pub fn resize_rgba(img: &RgbaBuffer, new_width: u32, new_height: u32) -> (r: RgbaBuffer)
    requires
        img.wf(),
        4 * (new_width * new_height) <= usize::MAX,
    ensures
        r.wf(),
        r.width == new_width,
        r.height == new_height,
        new_width == img.width && new_height == img.height ==> r.pixels@ == img.pixels@,
        new_width != img.width || new_height != img.height ==> r.pixels@ == lanczos_resized(
            img.width,
            img.height,
            img.pixels@,
            new_width,
            new_height,
        ),
{
    let src = image::RgbaImage::from_raw(img.width, img.height, img.pixels.clone()).unwrap();
    let out = image::imageops::resize(&src, new_width, new_height, image::imageops::FilterType::Lanczos3);
    RgbaBuffer { width: new_width, height: new_height, pixels: out.into_raw() }
}

/// Relies on `base64`'s standard engine `decode`: padded standard-alphabet
/// base64 to bytes, an error on malformed text.
#[verifier::external_body]
pub fn decode_base64(text: &str) -> (r: Option<Vec<u8>>)
    ensures
        r matches Some(v) ==> base64_decoded(text@) == Some(v@),
        r is None ==> base64_decoded(text@) is None,
{
    base64::engine::general_purpose::STANDARD.decode(text).ok()
}

/// Relies on `image::guess_format`: matches the leading bytes against the
/// codec's table of signatures.
#[verifier::external_body]
pub fn guess_format(bytes: &[u8]) -> (r: Option<ImageKind>)
    ensures
        r == guessed_format(bytes@),
{
    match image::guess_format(bytes) {
        Ok(image::ImageFormat::Png) => Some(ImageKind::Png),
        Ok(image::ImageFormat::Jpeg) => Some(ImageKind::Jpeg),
        Ok(image::ImageFormat::Gif) => Some(ImageKind::Gif),
        Ok(image::ImageFormat::Bmp) => Some(ImageKind::Bmp),
        Ok(image::ImageFormat::Ico) => Some(ImageKind::Ico),
        Ok(image::ImageFormat::Tiff) => Some(ImageKind::Tiff),
        Ok(image::ImageFormat::WebP) => Some(ImageKind::WebP),
        Ok(image::ImageFormat::Avif) => Some(ImageKind::Avif),
        Ok(_) => Some(ImageKind::Other),
        Err(_) => None,
    }
}

} // verus!
