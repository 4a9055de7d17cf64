use vstd::prelude::*;
use crate::codec::{ImageKind, guess_format, guessed_format};

verus! {

/// MIME type of a guessed format; unknown or unlisted formats are generic bytes.
pub open spec fn mime_for(kind: Option<ImageKind>) -> Seq<char> {
    match kind {
        Some(ImageKind::Png) => "image/png"@,
        Some(ImageKind::Jpeg) => "image/jpeg"@,
        Some(ImageKind::Gif) => "image/gif"@,
        Some(ImageKind::Bmp) => "image/bmp"@,
        Some(ImageKind::Ico) => "image/x-icon"@,
        Some(ImageKind::Tiff) => "image/tiff"@,
        Some(ImageKind::WebP) => "image/webp"@,
        Some(ImageKind::Avif) => "image/avif"@,
        _ => "application/octet-stream"@,
    }
}

/// MIME type of a guessed format.
pub fn mime_of(kind: Option<ImageKind>) -> (r: String)
    ensures
        r@ == mime_for(kind),
{
    let s: &str = match kind {
        Some(ImageKind::Png) => "image/png",
        Some(ImageKind::Jpeg) => "image/jpeg",
        Some(ImageKind::Gif) => "image/gif",
        Some(ImageKind::Bmp) => "image/bmp",
        Some(ImageKind::Ico) => "image/x-icon",
        Some(ImageKind::Tiff) => "image/tiff",
        Some(ImageKind::WebP) => "image/webp",
        Some(ImageKind::Avif) => "image/avif",
        _ => "application/octet-stream",
    };
    s.to_owned()
}

/// MIME type of encoded image bytes, from their leading signature.
pub fn detect_mime(input: &[u8]) -> (r: String)
    ensures
        r@ == mime_for(guessed_format(input@)),
{
    mime_of(guess_format(input))
}

} // verus!
