use vstd::prelude::*;

verus! {

/// A single-channel byte image, row-major, one byte per pixel.
pub struct Plane {
    pub width: u32,
    pub height: u32,
    pub data: Vec<u8>,
}

/// An interleaved RGBA image, row-major, four bytes per pixel.
pub struct RgbaBuffer {
    pub width: u32,
    pub height: u32,
    pub pixels: Vec<u8>,
}

/// A byte sequence holds exactly one value per pixel of a `w` x `h` image.
pub open spec fn plane_shape(w: int, h: int, s: Seq<u8>) -> bool {
    &&& w >= 1
    &&& h >= 1
    &&& s.len() == w * h
}

/// A byte sequence holds exactly four values per pixel of a `w` x `h` image.
pub open spec fn rgba_shape(w: int, h: int, s: Seq<u8>) -> bool {
    s.len() == 4 * (w * h)
}

/// Saturating conversion of an integer to a byte.
pub open spec fn clamp_byte(v: int) -> u8 {
    if v < 0 {
        0
    } else if v > 255 {
        255
    } else {
        v as u8
    }
}

/// Replicated-border addressing: a coordinate moved back into `0..n`.
pub open spec fn clamp_coord(v: int, n: int) -> int {
    if v < 0 {
        0
    } else if v >= n {
        n - 1
    } else {
        v
    }
}

/// Value of pixel `(x, y)` of a plane stored row-major with width `w`.
pub open spec fn pixel(w: int, s: Seq<u8>, x: int, y: int) -> u8 {
    s[y * w + x]
}

/// Value at `(x, y)` with coordinates clamped into the image (replicated borders).
pub open spec fn sample_at(w: int, h: int, s: Seq<u8>, x: int, y: int) -> u8 {
    pixel(w, s, clamp_coord(x, w), clamp_coord(y, h))
}

impl Plane {
    pub open spec fn wf(&self) -> bool {
        plane_shape(self.width as int, self.height as int, self.data@)
    }
}

impl RgbaBuffer {
    pub open spec fn wf(&self) -> bool {
        rgba_shape(self.width as int, self.height as int, self.pixels@)
    }
}

/// Facts on the row-major index `y * w + x` of a pixel inside a `w` x `h` image.
pub proof fn lemma_index(x: int, y: int, w: int, h: int)
    requires
        0 <= x < w,
        0 <= y < h,
    ensures
        0 <= y * w + x < w * h,
        (y * w + x) % w == x,
        (y * w + x) / w == y,
{
    vstd::arithmetic::div_mod::lemma_fundamental_div_mod_converse(y * w + x, w, y, x);
    assert(y * w + x < w * h) by (nonlinear_arith)
        requires
            0 <= x < w,
            0 <= y < h,
    ;
    assert(0 <= y * w) by (nonlinear_arith)
        requires
            0 <= y,
            0 <= w,
    ;
}

/// Reads pixel `(x, y)` of a plane with coordinates clamped into the image.
pub fn sample(p: &Plane, x: i64, y: i64) -> (r: u8)
    requires
        p.wf(),
    ensures
        r == sample_at(p.width as int, p.height as int, p.data@, x as int, y as int),
{
    let w = p.width as i64;
    let h = p.height as i64;
    let cx: i64 = if x < 0 { 0 } else if x >= w { w - 1 } else { x };
    let cy: i64 = if y < 0 { 0 } else if y >= h { h - 1 } else { y };
    let len = p.data.len();
    proof {
        lemma_index(cx as int, cy as int, w as int, h as int);
        assert(0 <= (cy as int) * (w as int)) by (nonlinear_arith)
            requires
                cy >= 0,
                w >= 0,
        ;
    }
    p.data[(cy as usize) * (p.width as usize) + (cx as usize)]
}

/// Saturating conversion of a machine integer to a byte.
pub fn to_byte(v: i64) -> (r: u8)
    ensures
        r == clamp_byte(v as int),
{
    if v < 0 {
        0
    } else if v > 255 {
        255
    } else {
        v as u8
    }
}

} // verus!
