use vstd::prelude::*;
use crate::plane::{RgbaBuffer, lemma_index};

verus! {

/// `a - b`, or zero when `b` is larger.
pub open spec fn sat_sub(a: int, b: int) -> int {
    if a > b {
        a - b
    } else {
        0
    }
}

/// A value saturated to the `u32` range.
pub open spec fn sat_u32(v: int) -> u32 {
    if v > u32::MAX {
        u32::MAX
    } else {
        v as u32
    }
}

/// The canvas counts as landscape when its aspect ratio `w / h` exceeds 1.1.
pub open spec fn is_landscape(w: int, h: int) -> bool {
    10 * w > 11 * h
}

/// Target size of the watermark: 15% of the canvas height on a landscape
/// canvas, else 30% of its width; the other side keeps the asset's aspect
/// ratio. Both are rounded down.
pub open spec fn watermark_dims(w: int, h: int, used_w: int, used_h: int) -> (u32, u32) {
    if is_landscape(w, h) {
        let sh = h * 15 / 100;
        (sat_u32(sh * used_w / used_h), sh as u32)
    } else {
        let sw = w * 3 / 10;
        (sw as u32, sat_u32(sw * used_h / used_w))
    }
}

/// Top-left corner of the watermark: bottom-right of the canvas, with margins
/// of 20% (horizontal) and 16% (vertical) of the watermark's height, never
/// past the canvas's top or left edge.
pub open spec fn watermark_anchor(w: int, h: int, sw: int, sh: int) -> (u32, u32) {
    (sat_sub(w, sw + sh / 5) as u32, sat_sub(h, sh + sh * 16 / 100) as u32)
}

/// Top or bottom half of an image (full-width rows).
pub open spec fn cropped_half(w: int, h: int, s: Seq<u8>, bottom: bool) -> Seq<u8> {
    let half = h / 2;
    let off = if bottom {
        half
    } else {
        0
    };
    s.subrange(4 * (w * off), 4 * (w * (off + half)))
}

/// Byte `j` of the canvas after the watermark `m` (of size `ww` x `wh`) is
/// alpha-blended onto it with its top-left corner at `(sx, sy)`.
pub open spec fn overlay_at(
    cw: int,
    s: Seq<u8>,
    ww: int,
    wh: int,
    m: Seq<u8>,
    sx: int,
    sy: int,
    j: int,
) -> u8 {
    let i = j / 4;
    let c = j % 4;
    let x = i % cw;
    let y = i / cw;
    if sx <= x < sx + ww && sy <= y < sy + wh {
        let k = 4 * ((y - sy) * ww + (x - sx));
        let a = m[k + 3] as int;
        if a > 0 {
            if c == 3 {
                255u8
            } else {
                ((m[k + c] as int * a + s[j] as int * (255 - a)) / 255) as u8
            }
        } else {
            s[j]
        }
    } else {
        s[j]
    }
}

pub open spec fn overlaid(cw: int, s: Seq<u8>, ww: int, wh: int, m: Seq<u8>, sx: int, sy: int) -> Seq<u8> {
    Seq::new(s.len(), |j: int| overlay_at(cw, s, ww, wh, m, sx, sy, j))
}

/// The top half of a two-part watermark asset, or its bottom half when
/// `bottom` is set.
pub fn crop_half(img: &RgbaBuffer, bottom: bool) -> (r: RgbaBuffer)
    requires
        img.wf(),
    ensures
        r.wf(),
        r.width == img.width,
        r.height == img.height / 2,
        r.pixels@ == cropped_half(img.width as int, img.height as int, img.pixels@, bottom),
{
    let w = img.width as usize;
    let half = img.height / 2;
    let off: u32 = if bottom { half } else { 0 };
    let len = img.pixels.len();
    assert(4 * (w * (off + half)) <= 4 * (w * img.height)) by (nonlinear_arith)
        requires
            off + half <= img.height,
    ;
    assert(4 * (w * off) <= 4 * (w * (off + half))) by (nonlinear_arith);
    let start = 4 * (w * off as usize);
    let end = 4 * (w * (off as usize + half as usize));
    let mut out: Vec<u8> = Vec::new();
    let mut j: usize = start;
    while j < end
        invariant
            len == img.pixels@.len(),
            start <= j <= end,
            end <= len,
            out@ == img.pixels@.subrange(start as int, j as int),
        decreases end - j,
    {
        out.push(img.pixels[j]);
        j += 1;
        assert(out@ =~= img.pixels@.subrange(start as int, j as int));
    }
    assert(end - start == 4 * (w * half)) by (nonlinear_arith)
        requires
            start == 4 * (w * off),
            end == 4 * (w * (off + half)),
    ;
    RgbaBuffer { width: img.width, height: half, pixels: out }
}

fn saturate_u32(v: u64) -> (r: u32)
    ensures
        r == sat_u32(v as int),
{
    if v > u32::MAX as u64 {
        u32::MAX
    } else {
        v as u32
    }
}

/// Target width and height of the watermark on a `w` x `h` canvas, for an
/// asset of `used_w` x `used_h`.
pub fn watermark_size(w: u32, h: u32, used_w: u32, used_h: u32) -> (r: (u32, u32))
    requires
        used_w >= 1,
        used_h >= 1,
    ensures
        r == watermark_dims(w as int, h as int, used_w as int, used_h as int),
{
    if 10 * (w as u64) > 11 * (h as u64) {
        let sh = (h as u64) * 15 / 100;
        assert(sh * used_w <= 4294967295u64 * 4294967295u64) by (nonlinear_arith)
            requires
                sh <= 4294967295u64,
                used_w <= 4294967295u64,
        ;
        (saturate_u32(sh * (used_w as u64) / (used_h as u64)), sh as u32)
    } else {
        let sw = (w as u64) * 3 / 10;
        assert(sw * used_h <= 4294967295u64 * 4294967295u64) by (nonlinear_arith)
            requires
                sw <= 4294967295u64,
                used_h <= 4294967295u64,
        ;
        (sw as u32, saturate_u32(sw * (used_h as u64) / (used_w as u64)))
    }
}

/// Top-left corner of a `sw` x `sh` watermark on a `w` x `h` canvas.
pub fn watermark_position(w: u32, h: u32, sw: u32, sh: u32) -> (r: (u32, u32))
    ensures
        r == watermark_anchor(w as int, h as int, sw as int, sh as int),
{
    let mx = sw as u64 + (sh as u64) / 5;
    let my = sh as u64 + (sh as u64) * 16 / 100;
    let x: u64 = if (w as u64) > mx { w as u64 - mx } else { 0 };
    let y: u64 = if (h as u64) > my { h as u64 - my } else { 0 };
    (x as u32, y as u32)
}

/// Alpha-blends watermark `wm` onto `canvas` with its top-left corner at
/// `(sx, sy)`; transparent watermark pixels and pixels outside the canvas are
/// skipped, and blended pixels become opaque.
pub fn blend_watermark(canvas: &RgbaBuffer, wm: &RgbaBuffer, sx: u32, sy: u32) -> (r: RgbaBuffer)
    requires
        canvas.wf(),
        canvas.width >= 1,
        wm.wf(),
    ensures
        r.wf(),
        r.width == canvas.width,
        r.height == canvas.height,
        r.pixels@ == overlaid(
            canvas.width as int,
            canvas.pixels@,
            wm.width as int,
            wm.height as int,
            wm.pixels@,
            sx as int,
            sy as int,
        ),
{
    let cw = canvas.width;
    let ch = canvas.height;
    let ww = wm.width;
    let wh = wm.height;
    let clen = canvas.pixels.len();
    let wlen = wm.pixels.len();
    let ghost spec_out = overlaid(
        cw as int,
        canvas.pixels@,
        ww as int,
        wh as int,
        wm.pixels@,
        sx as int,
        sy as int,
    );
    let mut out: Vec<u8> = Vec::new();
    let mut y: u32 = 0;
    while y < ch
        invariant
            canvas.wf(),
            wm.wf(),
            cw == canvas.width,
            ch == canvas.height,
            ww == wm.width,
            wh == wm.height,
            cw >= 1,
            clen == canvas.pixels@.len(),
            wlen == wm.pixels@.len(),
            spec_out == overlaid(
                cw as int,
                canvas.pixels@,
                ww as int,
                wh as int,
                wm.pixels@,
                sx as int,
                sy as int,
            ),
            y <= ch,
            out@.len() == 4 * (y * cw),
            forall|j: int| 0 <= j < out@.len() ==> #[trigger] out@[j] == spec_out[j],
        decreases ch - y,
    {
        let mut x: u32 = 0;
        while x < cw
            invariant
                canvas.wf(),
                wm.wf(),
                cw == canvas.width,
                ch == canvas.height,
                ww == wm.width,
                wh == wm.height,
                cw >= 1,
                clen == canvas.pixels@.len(),
                wlen == wm.pixels@.len(),
                spec_out == overlaid(
                    cw as int,
                    canvas.pixels@,
                    ww as int,
                    wh as int,
                    wm.pixels@,
                    sx as int,
                    sy as int,
                ),
                y < ch,
                x <= cw,
                out@.len() == 4 * (y * cw + x),
                forall|j: int| 0 <= j < out@.len() ==> #[trigger] out@[j] == spec_out[j],
            decreases cw - x,
        {
            proof {
                lemma_index(x as int, y as int, cw as int, ch as int);
            }
            let i = (y as usize) * (cw as usize) + (x as usize);
            let ghost base = 4 * i;
            assert(4 * i + 3 < clen);
            let b: usize = 4 * i;
            assert(forall|k: int|
                0 <= k < 4 ==> #[trigger] ((base + k) / 4) == i && (base + k) % 4 == k);
            let covered = sx <= x && (x as u64) < sx as u64 + ww as u64 && sy <= y && (y as u64)
                < sy as u64 + wh as u64;
            if covered {
                let mx = x - sx;
                let my = y - sy;
                proof {
                    lemma_index(mx as int, my as int, ww as int, wh as int);
                }
                let k = 4 * ((my as usize) * (ww as usize) + (mx as usize));
                let a = wm.pixels[k + 3] as u32;
                if a > 0 {
                    assert forall|q: int| 0 <= q < 3 implies #[trigger] spec_out[base + q] == ((
                    wm.pixels@[k + q] as int * a + canvas.pixels@[base + q] as int * (255 - a))
                        / 255) as u8 by {
                        assert((base + q) / 4 == i && (base + q) % 4 == q);
                    }
                    let mut c: usize = 0;
                    while c < 3
                        invariant
                            c <= 3,
                            k + 3 < wlen,
                            wlen == wm.pixels@.len(),
                            clen == canvas.pixels@.len(),
                            base + 3 < clen,
                            a == wm.pixels@[k + 3],
                            b == base,
                            0 < a <= 255,
                            out@.len() == base + c,
                            forall|q: int| 0 <= q < 4 ==> #[trigger] ((base + q) / 4) == i && (base
                                + q) % 4 == q,
                            forall|j: int| 0 <= j < out@.len() ==> #[trigger] out@[j] == spec_out[j],
                            spec_out.len() == clen,
                            forall|q: int| 0 <= q < 3 ==> #[trigger] spec_out[base + q] == ((wm.pixels@[k + q] as int * a + canvas.pixels@[base + q] as int * (255 - a)) / 255) as u8,
                        decreases 3 - c,
                    {
                        let s = wm.pixels[k + c] as u32;
                        let d = canvas.pixels[b + c] as u32;
                        assert(s * a + d * (255 - a) <= 255 * 255) by (nonlinear_arith)
                            requires
                                s <= 255,
                                d <= 255,
                                a <= 255,
                        ;
                        out.push(((s * a + d * (255 - a)) / 255) as u8);
                        c += 1;
                    }
                    out.push(255);
                } else {
                    out.push(canvas.pixels[b]);
                    out.push(canvas.pixels[b + 1]);
                    out.push(canvas.pixels[b + 2]);
                    out.push(canvas.pixels[b + 3]);
                }
            } else {
                out.push(canvas.pixels[b]);
                out.push(canvas.pixels[b + 1]);
                out.push(canvas.pixels[b + 2]);
                out.push(canvas.pixels[b + 3]);
            }
            x += 1;
        }
        assert((y + 1) * cw == y * cw + cw) by (nonlinear_arith);
        y += 1;
    }
    assert(4 * (ch * cw) == 4 * (cw * ch)) by (nonlinear_arith);
    assert(out@ =~= spec_out);
    RgbaBuffer { width: cw, height: ch, pixels: out }
}

} // verus!
