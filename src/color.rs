use vstd::prelude::*;
use crate::plane::{Plane, RgbaBuffer, clamp_byte, lemma_index, to_byte};

verus! {

/// Number of stops of the colorization gradient.
pub const STOP_COUNT: usize = 6;

/// Stop positions along the gradient, in thousandths.
pub const STOP_POSITIONS: [u64; 6] = [0, 400, 600, 700, 800, 1000];

/// Red, green and blue of each gradient stop.
pub const STOP_RED: [u64; 6] = [251, 252, 252, 207, 55, 62];

pub const STOP_GREEN: [u64; 6] = [186, 114, 53, 54, 181, 182];

pub const STOP_BLUE: [u64; 6] = [48, 53, 78, 223, 217, 218];

/// Position of stop `i`, in thousandths.
pub open spec fn stop_pos(i: int) -> int {
    if i <= 0 {
        0
    } else if i == 1 {
        400
    } else if i == 2 {
        600
    } else if i == 3 {
        700
    } else if i == 4 {
        800
    } else {
        1000
    }
}

/// Channel `c` (0 red, 1 green, 2 blue) of stop `i`.
pub open spec fn stop_color(i: int, c: int) -> int {
    if c == 0 {
        seq![251int, 252, 252, 207, 55, 62][i]
    } else if c == 1 {
        seq![186int, 114, 53, 54, 181, 182][i]
    } else {
        seq![48int, 53, 78, 223, 217, 218][i]
    }
}

/// Index of the first gradient segment, from `i` on, whose end is at or past
/// `t = tn / td` (already clamped to at most one).
pub open spec fn segment_from(tn: int, td: int, i: int) -> int
    decreases 4 - i,
{
    if i >= 4 || 1000 * tn <= stop_pos(i + 1) * td {
        i
    } else {
        segment_from(tn, td, i + 1)
    }
}

/// `t = tn / td` clamped to at most one, as a numerator over `td`.
pub open spec fn clamped_num(tn: int, td: int) -> int {
    if tn > td {
        td
    } else {
        tn
    }
}

/// Channel `c` of the gradient at `t = tn / td`: linear interpolation
/// between the two stops around `t`, rounded down.
pub open spec fn gradient_channel(tn: int, td: int, c: int) -> u8 {
    let t = clamped_num(tn, td);
    let i = segment_from(t, td, 0);
    let num = 1000 * t - stop_pos(i) * td;
    let den = (stop_pos(i + 1) - stop_pos(i)) * td;
    ((stop_color(i, c) * den + (stop_color(i + 1, c) - stop_color(i, c)) * num) / den) as u8
}

/// Luminance of an RGB triple: `0.299 R + 0.587 G + 0.114 B`, rounded down.
pub open spec fn luma(r: u8, g: u8, b: u8) -> u8 {
    ((299 * r as int + 587 * g as int + 114 * b as int) / 1000) as u8
}

/// Brightness adjustment by `light` percent: `v + v * light / 100`, rounded
/// down and saturated.
pub open spec fn brighten_value(v: u8, light: i32) -> u8 {
    clamp_byte((100 * v as int + v as int * light as int) / 100)
}

/// Quantizes a channel to `n` evenly spaced levels: the nearest level index
/// `round(c * (n - 1) / 255)`, scaled back to `0..=255` and rounded down.
pub open spec fn quantize_value(c: u8, n: u8) -> u8 {
    let k = (2 * c as int * (n as int - 1) + 255) / 510;
    (k * 255 / (n as int - 1)) as u8
}

/// A channel flattened onto white under opacity `a`:
/// `c * a / 255 + 255 * (1 - a / 255)`, rounded down.
pub open spec fn flatten_value(c: u8, a: u8) -> u8 {
    ((c as int * a as int + 255 * (255 - a as int)) / 255) as u8
}

pub open spec fn luminance_plane(s: Seq<u8>, n: int) -> Seq<u8> {
    Seq::new(n as nat, |i: int| luma(s[4 * i], s[4 * i + 1], s[4 * i + 2]))
}

pub open spec fn brightened(s: Seq<u8>, light: i32) -> Seq<u8> {
    Seq::new(s.len(), |i: int| brighten_value(s[i], light))
}

/// Grayscale RGBA: `(v, v, v, 255)` for each tone `v`.
pub open spec fn gray_rgba(s: Seq<u8>) -> Seq<u8> {
    Seq::new(
        4 * s.len(),
        |j: int|
            if j % 4 == 3 {
                255u8
            } else {
                s[j / 4]
            },
    )
}

/// Gradient RGBA: the gradient colour at `t = (x + y) / (w + h)` with opacity
/// `255 - v`, so darker tones give more opaque ink.
pub open spec fn kiss_rgba(w: int, h: int, s: Seq<u8>) -> Seq<u8> {
    Seq::new(
        4 * s.len(),
        |j: int|
            {
                let i = j / 4;
                if j % 4 == 3 {
                    (255 - s[i]) as u8
                } else {
                    gradient_channel(i % w + i / w, w + h, j % 4)
                }
            },
    )
}

pub open spec fn quantized(s: Seq<u8>, n: u8) -> Seq<u8> {
    Seq::new(
        s.len(),
        |j: int|
            if j % 4 == 3 {
                s[j]
            } else {
                quantize_value(s[j], n)
            },
    )
}

pub open spec fn flattened(s: Seq<u8>) -> Seq<u8> {
    Seq::new(
        s.len(),
        |j: int|
            if j % 4 == 3 {
                255u8
            } else {
                flatten_value(s[j], s[j - j % 4 + 3])
            },
    )
}

proof fn lemma_segment_range(tn: int, td: int, i: int)
    requires
        0 <= i <= 4,
    ensures
        i <= segment_from(tn, td, i) <= 4,
        segment_from(tn, td, i) > i ==> 1000 * tn > stop_pos(i + 1) * td,
        segment_from(tn, td, i) < 4 ==> 1000 * tn <= stop_pos(segment_from(tn, td, i) + 1) * td,
    decreases 4 - i,
{
    if i < 4 && !(1000 * tn <= stop_pos(i + 1) * td) {
        lemma_segment_range(tn, td, i + 1);
    }
}

proof fn lemma_segment_start(tn: int, td: int, i: int)
    requires
        0 <= i <= 4,
        1000 * tn >= stop_pos(i) * td,
        td > 0,
    ensures
        1000 * tn >= stop_pos(segment_from(tn, td, i)) * td,
    decreases 4 - i,
{
    if i < 4 && !(1000 * tn <= stop_pos(i + 1) * td) {
        lemma_segment_start(tn, td, i + 1);
    }
}

/// Whether `t = tn / td` lies at or before the end of segment `i`.
fn segment_reached(t: u64, td: u64, i: usize) -> (r: bool)
    requires
        i < 4,
        t <= td,
        td <= u32::MAX as u64 * 2,
    ensures
        r == (1000 * t <= stop_pos(i + 1) * td),
{
    let p = STOP_POSITIONS[i + 1];
    assert(p == stop_pos(i + 1));
    assert(p * td <= 1000 * td) by (nonlinear_arith)
        requires
            p <= 1000,
    ;
    1000 * t <= p * td
}

/// Gradient colour at `t = tn / td`, clamped to at most one.
pub fn get_gradient_color(tn: u64, td: u64) -> (rgb: (u8, u8, u8))
    requires
        0 < td <= u32::MAX as u64 * 2,
    ensures
        rgb.0 == gradient_channel(tn as int, td as int, 0),
        rgb.1 == gradient_channel(tn as int, td as int, 1),
        rgb.2 == gradient_channel(tn as int, td as int, 2),
{
    let t: u64 = if tn > td { td } else { tn };
    let mut i: usize = 0;
    while i < 4 && !segment_reached(t, td, i)
        invariant
            0 <= i <= 4,
            t <= td,
            0 < td <= u32::MAX as u64 * 2,
            segment_from(t as int, td as int, 0) == segment_from(t as int, td as int, i as int),
            1000 * t >= stop_pos(i as int) * td,
            forall|k: int| 0 <= k < 6 ==> STOP_POSITIONS@[k] == stop_pos(k),
        decreases 4 - i,
    {
        i += 1;
    }
    assert(segment_from(t as int, td as int, i as int) == i);
    let p1 = STOP_POSITIONS[i];
    let p2 = STOP_POSITIONS[i + 1];
    assert(p1 == stop_pos(i as int) && p2 == stop_pos(i + 1));
    assert(p1 * td <= 1000 * td && (p2 - p1) * td <= 1000 * td) by (nonlinear_arith)
        requires
            p1 <= 1000,
            p1 < p2 <= 1000,
    ;
    let num: u64 = 1000 * t - p1 * td;
    let den: u64 = (p2 - p1) * td;
    assert(den > 0) by (nonlinear_arith)
        requires
            p2 > p1,
            td > 0,
            den == (p2 - p1) * td,
    ;
    assert(num <= den) by (nonlinear_arith)
        requires
            1000 * t <= p2 * td,
            num == 1000 * t - p1 * td,
            den == (p2 - p1) * td,
    ;
    assert(STOP_RED[i as int] <= 255 && STOP_RED[i + 1] <= 255);
    assert(STOP_GREEN[i as int] <= 255 && STOP_GREEN[i + 1] <= 255);
    assert(STOP_BLUE[i as int] <= 255 && STOP_BLUE[i + 1] <= 255);
    let r = lerp_channel(STOP_RED[i], STOP_RED[i + 1], num, den);
    let g = lerp_channel(STOP_GREEN[i], STOP_GREEN[i + 1], num, den);
    let b = lerp_channel(STOP_BLUE[i], STOP_BLUE[i + 1], num, den);
    (r, g, b)
}

/// `c1 + (c2 - c1) * num / den`, rounded down, for `num <= den`.
fn lerp_channel(c1: u64, c2: u64, num: u64, den: u64) -> (r: u8)
    requires
        c1 <= 255,
        c2 <= 255,
        num <= den,
        0 < den <= 8589934590000,
    ensures
        r as int == (c1 as int * den as int + (c2 as int - c1 as int) * num as int) / den as int,
{
    assert(c1 as int * den as int + (c2 as int - c1 as int) * num as int == c1 * (den - num) + c2
        * num) by (nonlinear_arith);
    assert(c1 * (den - num) <= 255 * (den - num)) by (nonlinear_arith)
        requires
            c1 <= 255,
            num <= den,
    ;
    assert(c2 * num <= 255 * num) by (nonlinear_arith)
        requires
            c2 <= 255,
    ;
    let total = c1 * (den - num) + c2 * num;
    assert(total / den <= 255) by (nonlinear_arith)
        requires
            total <= 255 * den,
            den > 0,
    ;
    (total / den) as u8
}

/// At `t = 0` the gradient gives the first stop's colour exactly.
pub proof fn lemma_gradient_start(td: int, c: int)
    requires
        td > 0,
        0 <= c < 3,
    ensures
        gradient_channel(0, td, c) == stop_color(0, c),
{
    assert(segment_from(0, td, 0) == 0);
    assert(clamped_num(0, td) == 0);
    let den = 400 * td;
    assert(1000 * 0 - stop_pos(0) * td == 0);
    assert((stop_color(1, c) - stop_color(0, c)) * 0 == 0);
    assert(0 <= stop_color(0, c) <= 255);
    assert((stop_color(0, c) * den) / den == stop_color(0, c)) by {
        vstd::arithmetic::div_mod::lemma_div_multiples_vanish(stop_color(0, c), den);
    }
}

/// At `t = 1` and beyond the gradient gives the last stop's colour exactly.
pub proof fn lemma_gradient_end(tn: int, td: int, c: int)
    requires
        td > 0,
        tn >= td,
        0 <= c < 3,
    ensures
        gradient_channel(tn, td, c) == stop_color(5, c),
{
    reveal_with_fuel(segment_from, 6);
    assert(clamped_num(tn, td) == td);
    assert(1000 * td > 800 * td);
    assert(segment_from(td, td, 0) == 4);
    let den = 200 * td;
    let num = 1000 * td - 800 * td;
    assert(num == den);
    let c1 = stop_color(4, c);
    let c2 = stop_color(5, c);
    assert(c1 * den + (c2 - c1) * num == c2 * den) by (nonlinear_arith)
        requires
            num == den,
    ;
    assert((c2 * den) / den == c2) by {
        vstd::arithmetic::div_mod::lemma_div_multiples_vanish(c2, den);
    }
}

/// Halfway between two neighbouring stops the gradient gives the mean of
/// their colours, rounded down: twice the result is within one of their sum.
pub proof fn lemma_gradient_midpoint(i: int, c: int)
    requires
        0 <= i < 5,
        0 <= c < 3,
    ensures
        -1 <= 2 * gradient_channel(stop_pos(i) + stop_pos(i + 1), 2000, c) as int - (stop_color(i, c)
            + stop_color(i + 1, c)) <= 0,
{
    reveal_with_fuel(segment_from, 6);
    let tn = stop_pos(i) + stop_pos(i + 1);
    assert(clamped_num(tn, 2000) == tn);
    assert(segment_from(tn, 2000, 0) == i);
    let d = 1000 * (stop_pos(i + 1) - stop_pos(i));
    let num = 1000 * tn - stop_pos(i) * 2000;
    let den = (stop_pos(i + 1) - stop_pos(i)) * 2000;
    assert(num == d && den == 2 * d);
    let c1 = stop_color(i, c);
    let c2 = stop_color(i + 1, c);
    assert(c1 * den + (c2 - c1) * num == (c1 + c2) * d) by (nonlinear_arith)
        requires
            num == d,
            den == 2 * d,
    ;
    assert(d > 0);
    assert(((c1 + c2) * d) / (2 * d) == (c1 + c2) / 2) by {
        vstd::arithmetic::div_mod::lemma_div_denominator((c1 + c2) * d, d, 2);
        vstd::arithmetic::div_mod::lemma_div_multiples_vanish(c1 + c2, d);
        assert((c1 + c2) * d == d * (c1 + c2)) by (nonlinear_arith);
        assert(d * 2 == 2 * d);
    }
    assert(0 <= c1 <= 255 && 0 <= c2 <= 255);
}

/// Luminance of each pixel of an RGBA image.
pub fn to_luminance(img: &RgbaBuffer) -> (r: Plane)
    requires
        img.wf(),
        img.width >= 1,
        img.height >= 1,
    ensures
        r.wf(),
        r.width == img.width,
        r.height == img.height,
        r.data@ == luminance_plane(img.pixels@, img.width * img.height),
{
    let len = img.pixels.len();
    let n = len / 4;
    let mut out: Vec<u8> = Vec::new();
    let mut i: usize = 0;
    while i < n
        invariant
            img.wf(),
            len == img.pixels@.len(),
            n == img.width * img.height,
            i <= n,
            out@.len() == i,
            forall|j: int|
                0 <= j < i ==> out@[j] == luma(
                    img.pixels@[4 * j],
                    img.pixels@[4 * j + 1],
                    img.pixels@[4 * j + 2],
                ),
        decreases n - i,
    {
        let r = img.pixels[4 * i] as u64;
        let g = img.pixels[4 * i + 1] as u64;
        let b = img.pixels[4 * i + 2] as u64;
        let l = (299 * r + 587 * g + 114 * b) / 1000;
        out.push(l as u8);
        i += 1;
    }
    assert(out@ =~= luminance_plane(img.pixels@, img.width * img.height));
    Plane { width: img.width, height: img.height, data: out }
}

/// Brightness adjustment by `light` percent, saturated to a byte.
pub fn adjust_brightness(p: &Plane, light: i32) -> (r: Plane)
    requires
        p.wf(),
    ensures
        r.wf(),
        r.width == p.width,
        r.height == p.height,
        r.data@ == brightened(p.data@, light),
{
    let n = p.data.len();
    let mut out: Vec<u8> = Vec::new();
    let mut i: usize = 0;
    while i < n
        invariant
            n == p.data@.len(),
            i <= n,
            out@.len() == i,
            forall|j: int| 0 <= j < i ==> out@[j] == brighten_value(p.data@[j], light),
        decreases n - i,
    {
        let v = p.data[i] as i64;
        let l = light as i64;
        assert(-547608330240 <= v * l <= 547608330240) by (nonlinear_arith)
            requires
                0 <= v <= 255,
                -2147483648 <= l <= 2147483647,
        ;
        let num: i64 = 100 * v + v * l;
        let b = if num < 0 {
            assert(num / 100 <= -1) by (nonlinear_arith)
                requires
                    num < 0,
            ;
            0u8
        } else {
            to_byte(num / 100)
        };
        out.push(b);
        i += 1;
    }
    assert(out@ =~= brightened(p.data@, light));
    Plane { width: p.width, height: p.height, data: out }
}

/// Grayscale colorization: `(v, v, v, 255)` for each tone `v`.
pub fn colorize_gray(p: &Plane) -> (r: RgbaBuffer)
    requires
        p.wf(),
    ensures
        r.wf(),
        r.width == p.width,
        r.height == p.height,
        r.pixels@ == gray_rgba(p.data@),
{
    let n = p.data.len();
    let mut out: Vec<u8> = Vec::new();
    let mut i: usize = 0;
    while i < n
        invariant
            n == p.data@.len(),
            p.wf(),
            i <= n,
            out@.len() == 4 * i,
            forall|j: int|
                0 <= j < 4 * i ==> out@[j] == if j % 4 == 3 {
                    255u8
                } else {
                    p.data@[j / 4]
                },
        decreases n - i,
    {
        let v = p.data[i];
        out.push(v);
        out.push(v);
        out.push(v);
        out.push(255);
        i += 1;
    }
    assert(out@ =~= gray_rgba(p.data@));
    RgbaBuffer { width: p.width, height: p.height, pixels: out }
}

/// Gradient colorization: the gradient colour at `t = (x + y) / (w + h)`,
/// with opacity `255 - v`.
pub fn colorize_kiss(p: &Plane) -> (r: RgbaBuffer)
    requires
        p.wf(),
    ensures
        r.wf(),
        r.width == p.width,
        r.height == p.height,
        r.pixels@ == kiss_rgba(p.width as int, p.height as int, p.data@),
{
    let w = p.width;
    let h = p.height;
    let len = p.data.len();
    let td: u64 = w as u64 + h as u64;
    let mut out: Vec<u8> = Vec::new();
    let mut y: u32 = 0;
    while y < h
        invariant
            p.wf(),
            w == p.width,
            h == p.height,
            len == w * h,
            td == w + h,
            y <= h,
            out@.len() == 4 * (y * w),
            forall|j: int|
                0 <= j < out@.len() ==> #[trigger] out@[j] == kiss_rgba(w as int, h as int, p.data@)[j],
        decreases h - y,
    {
        let mut x: u32 = 0;
        while x < w
            invariant
                p.wf(),
                w == p.width,
                h == p.height,
                len == w * h,
                td == w + h,
                y < h,
                x <= w,
                out@.len() == 4 * (y * w + x),
                forall|j: int|
                    0 <= j < out@.len() ==> #[trigger] out@[j] == kiss_rgba(w as int, h as int, p.data@)[j],
            decreases w - x,
        {
            proof {
                lemma_index(x as int, y as int, w as int, h as int);
            }
            let i = (y as usize) * (w as usize) + (x as usize);
            let v = p.data[i];
            let rgb = get_gradient_color(x as u64 + y as u64, td);
            let ghost base = 4 * (y * w + x);
            out.push(rgb.0);
            out.push(rgb.1);
            out.push(rgb.2);
            out.push(255 - v);
            assert(forall|k: int| 0 <= k < 4 ==> #[trigger] ((base + k) / 4) == i && (base + k) % 4 == k);
            x += 1;
        }
        assert((y + 1) * w == y * w + w) by (nonlinear_arith);
        y += 1;
    }
    assert(4 * (h * w) == 4 * (w * h)) by (nonlinear_arith);
    assert(out@ =~= kiss_rgba(w as int, h as int, p.data@));
    RgbaBuffer { width: w, height: h, pixels: out }
}

proof fn lemma_quantize_bound(c: u8, n: u8)
    requires
        n >= 2,
    ensures
        0 <= (2 * c as int * (n as int - 1) + 255) / 510 <= n as int - 1,
        0 <= ((2 * c as int * (n as int - 1) + 255) / 510) * 255 / (n as int - 1) <= 255,
{
    let m = n as int - 1;
    let k = (2 * c as int * m + 255) / 510;
    assert(2 * c as int * m + 255 < 510 * m + 510) by (nonlinear_arith)
        requires
            c <= 255,
            m >= 1,
    ;
    assert(0 <= k <= m) by (nonlinear_arith)
        requires
            k == (2 * c as int * m + 255) / 510,
            2 * c as int * m + 255 < 510 * m + 510,
            m >= 1,
            c >= 0,
    ;
    assert(0 <= k * 255 / m <= 255) by (nonlinear_arith)
        requires
            0 <= k <= m,
            m >= 1,
    ;
}

/// Posterizes the colour channels of an RGBA image to `n` levels, leaving
/// opacity untouched.
pub fn quantize_tones(img: &RgbaBuffer, n: u8) -> (r: RgbaBuffer)
    requires
        img.wf(),
        n >= 2,
    ensures
        r.wf(),
        r.width == img.width,
        r.height == img.height,
        r.pixels@ == quantized(img.pixels@, n),
{
    let len = img.pixels.len();
    let m = (n - 1) as u64;
    let mut out: Vec<u8> = Vec::new();
    let mut j: usize = 0;
    while j < len
        invariant
            len == img.pixels@.len(),
            m == n - 1,
            n >= 2,
            j <= len,
            out@.len() == j,
            forall|k: int|
                0 <= k < j ==> out@[k] == if k % 4 == 3 {
                    img.pixels@[k]
                } else {
                    quantize_value(img.pixels@[k], n)
                },
        decreases len - j,
    {
        let c = img.pixels[j];
        if j % 4 == 3 {
            out.push(c);
        } else {
            proof {
                lemma_quantize_bound(c, n);
            }
            assert(2 * (c as u64) * m <= 130050) by (nonlinear_arith)
                requires
                    c <= 255,
                    m <= 254,
            ;
            let k = (2 * (c as u64) * m + 255) / 510;
            let q = k * 255 / m;
            out.push(q as u8);
        }
        j += 1;
    }
    assert(out@ =~= quantized(img.pixels@, n));
    RgbaBuffer { width: img.width, height: img.height, pixels: out }
}

/// With two levels every colour channel becomes black or white.
pub proof fn lemma_two_tones(c: u8)
    ensures
        quantize_value(c, 2) == 0 || quantize_value(c, 2) == 255,
{
    let k = (2 * c as int + 255) / 510;
    assert(0 <= k <= 1);
    assert(k * 255 / 1 == k * 255);
}

proof fn lemma_flatten_bound(c: u8, a: u8)
    ensures
        0 <= (c as int * a as int + 255 * (255 - a as int)) / 255 <= 255,
{
    assert(0 <= c as int * a as int <= 255 * a as int) by (nonlinear_arith)
        requires
            0 <= c <= 255,
            0 <= a,
    ;
}

/// Flattens an RGBA image onto an opaque white background.
pub fn flatten_on_white(img: &RgbaBuffer) -> (r: RgbaBuffer)
    requires
        img.wf(),
    ensures
        r.wf(),
        r.width == img.width,
        r.height == img.height,
        r.pixels@ == flattened(img.pixels@),
{
    let len = img.pixels.len();
    let n = len / 4;
    let mut out: Vec<u8> = Vec::new();
    let mut i: usize = 0;
    while i < n
        invariant
            len == img.pixels@.len(),
            len == 4 * n,
            i <= n,
            out@.len() == 4 * i,
            forall|j: int| 0 <= j < 4 * i ==> #[trigger] out@[j] == flattened(img.pixels@)[j],
        decreases n - i,
    {
        let a = img.pixels[4 * i + 3];
        let mut c: usize = 0;
        while c < 3
            invariant
                len == img.pixels@.len(),
                len == 4 * n,
                i < n,
                c <= 3,
                a == img.pixels@[4 * i + 3],
                out@.len() == 4 * i + c,
                forall|j: int| 0 <= j < 4 * i + c ==> #[trigger] out@[j] == flattened(img.pixels@)[j],
            decreases 3 - c,
        {
            let v = img.pixels[4 * i + c];
            proof {
                lemma_flatten_bound(v, a);
            }
            let f = ((v as u64) * (a as u64) + 255 * (255 - a as u64)) / 255;
            let ghost j = 4 * i + c;
            assert(j % 4 == c && j - j % 4 + 3 == 4 * i + 3);
            out.push(f as u8);
            c += 1;
        }
        out.push(255);
        i += 1;
    }
    assert(out@ =~= flattened(img.pixels@));
    RgbaBuffer { width: img.width, height: img.height, pixels: out }
}

/// Grayscale colorization flattened on white gives back each tone in all
/// three colour channels, fully opaque.
pub proof fn lemma_gray_flatten_keeps_tones(s: Seq<u8>)
    ensures
        flattened(gray_rgba(s)) == gray_rgba(s),
{
    let g = gray_rgba(s);
    assert forall|j: int| 0 <= j < g.len() implies flattened(g)[j] == g[j] by {
        if j % 4 != 3 {
            let k = j - j % 4 + 3;
            assert(k % 4 == 3);
            let v = g[j] as int;
            assert((v * 255 + 255 * (255 - 255)) / 255 == v) by (nonlinear_arith);
        }
    }
    assert(flattened(g) =~= g);
}

} // verus!
