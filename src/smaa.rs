use vstd::prelude::*;
use crate::kernel::{Kernel, sobel_x_kernel, sobel_y_kernel};
use crate::convolve::{conv_sum, convolve, convolved, weighted_sum};
use crate::plane::{Plane, plane_shape, clamp_byte, to_byte, clamp_coord, pixel, sample_at, sample, lemma_index};

verus! {

/// Squared Sobel magnitude above which a pixel counts as a strong edge
/// (a magnitude of 20).
pub const EDGE_THRESHOLD_SQ: i64 = 400;

/// Fixed-point one for blend weights.
pub const WEIGHT_ONE: i64 = 4096;

/// Proximity of the centre pixel, `1 / (1 + 0)` in fixed point.
pub const PROXIMITY_CENTRE: i64 = 4096;

/// Proximity of an edge-adjacent neighbour, `1 / (1 + 1)` in fixed point.
pub const PROXIMITY_ORTHO: i64 = 2048;

/// Proximity of a diagonal neighbour, `1 / (1 + sqrt 2)` in fixed point.
pub const PROXIMITY_DIAG: i64 = 1697;

/// Attenuation of an edge-adjacent sample, `1 / (1 + 2)` in fixed point.
pub const ATTEN_ORTHO: i64 = 1365;

/// Attenuation of a diagonal sample, `1 / (1 + 2 sqrt 2)` in fixed point.
pub const ATTEN_DIAG: i64 = 1070;

/// Blend weights below this (about 0.01) leave a pixel untouched.
pub const MIN_BLEND_WEIGHT: i64 = 41;

pub open spec fn s_at(w: int, h: int, s: Seq<u8>, x: int, y: int) -> int {
    sample_at(w, h, s, x, y) as int
}

/// Horizontal Sobel response at `(x, y)`, with replicated borders.
pub open spec fn sobel_gx(w: int, h: int, s: Seq<u8>, x: int, y: int) -> int {
    (s_at(w, h, s, x + 1, y - 1) + 2 * s_at(w, h, s, x + 1, y) + s_at(w, h, s, x + 1, y + 1)) - (
    s_at(w, h, s, x - 1, y - 1) + 2 * s_at(w, h, s, x - 1, y) + s_at(w, h, s, x - 1, y + 1))
}

/// Vertical Sobel response at `(x, y)`, with replicated borders.
pub open spec fn sobel_gy(w: int, h: int, s: Seq<u8>, x: int, y: int) -> int {
    (s_at(w, h, s, x - 1, y + 1) + 2 * s_at(w, h, s, x, y + 1) + s_at(w, h, s, x + 1, y + 1)) - (
    s_at(w, h, s, x - 1, y - 1) + 2 * s_at(w, h, s, x, y - 1) + s_at(w, h, s, x + 1, y - 1))
}

/// Squared Euclidean Sobel magnitude at `(x, y)`.
pub open spec fn grad_sq(w: int, h: int, s: Seq<u8>, x: int, y: int) -> int {
    sobel_gx(w, h, s, x, y) * sobel_gx(w, h, s, x, y) + sobel_gy(w, h, s, x, y) * sobel_gy(
        w,
        h,
        s,
        x,
        y,
    )
}

/// The largest `r <= limit` with `r * r <= v` (zero if none is positive).
pub open spec fn root_from(v: int, limit: int) -> int
    decreases limit,
{
    if limit <= 0 {
        0
    } else if limit * limit <= v {
        limit
    } else {
        root_from(v, limit - 1)
    }
}

/// Integer square root, saturated to a byte.
pub open spec fn byte_sqrt(v: int) -> u8 {
    root_from(v, 255) as u8
}

/// Edge-magnitude tone plane: the Euclidean Sobel magnitude of each pixel.
pub open spec fn edge_plane(w: int, h: int, s: Seq<u8>) -> Seq<u8> {
    Seq::new((w * h) as nat, |j: int| byte_sqrt(grad_sq(w, h, s, j % w, j / w)))
}

/// Squared magnitude of the two Sobel responses at `(x, y)`, each first
/// saturated to a byte as the convolution engine saturates its output.
pub open spec fn clamped_grad_sq(w: int, h: int, s: Seq<u8>, x: int, y: int) -> int {
    let gx = clamp_byte(sobel_gx(w, h, s, x, y)) as int;
    let gy = clamp_byte(sobel_gy(w, h, s, x, y)) as int;
    gx * gx + gy * gy
}

/// Edge map: the squared Sobel magnitude of each pixel, from responses
/// saturated to bytes. A pixel is a strong edge when its entry exceeds
/// `EDGE_THRESHOLD_SQ`, that is when its magnitude exceeds 20.
pub open spec fn edge_strengths(w: int, h: int, s: Seq<u8>) -> Seq<u32> {
    Seq::new((w * h) as nat, |j: int| clamped_grad_sq(w, h, s, j % w, j / w) as u32)
}

/// Column offset of window position `t` of a 3 x 3 window.
pub open spec fn offset_dx(t: int) -> int {
    t % 3 - 1
}

/// Row offset of window position `t` of a 3 x 3 window.
pub open spec fn offset_dy(t: int) -> int {
    t / 3 - 1
}

/// Whether the edge map marks `(x, y)` (clamped into the image) as a strong edge.
pub open spec fn flag_at(w: int, h: int, e: Seq<u32>, x: int, y: int) -> bool {
    e[clamp_coord(y, h) * w + clamp_coord(x, w)] > EDGE_THRESHOLD_SQ
}

/// Fixed-point `1 / (1 + distance)` of window position `t` from the centre.
pub open spec fn proximity(t: int) -> int {
    if t == 4 {
        PROXIMITY_CENTRE as int
    } else if offset_dx(t) == 0 || offset_dy(t) == 0 {
        PROXIMITY_ORTHO as int
    } else {
        PROXIMITY_DIAG as int
    }
}

/// Proximity summed over the strong edges among the first `t` window positions.
pub open spec fn pattern_sum(w: int, h: int, e: Seq<u32>, x: int, y: int, t: int) -> int
    decreases t,
{
    if t <= 0 {
        0
    } else {
        pattern_sum(w, h, e, x, y, t - 1) + if flag_at(
            w,
            h,
            e,
            x + offset_dx(t - 1),
            y + offset_dy(t - 1),
        ) {
            proximity(t - 1)
        } else {
            0
        }
    }
}

/// Number of strong edges among the first `t` window positions.
pub open spec fn strong_count(w: int, h: int, e: Seq<u32>, x: int, y: int, t: int) -> int
    decreases t,
{
    if t <= 0 {
        0
    } else {
        strong_count(w, h, e, x, y, t - 1) + if flag_at(
            w,
            h,
            e,
            x + offset_dx(t - 1),
            y + offset_dy(t - 1),
        ) {
            1int
        } else {
            0
        }
    }
}

/// Fixed-point blend weight of `(x, y)`: zero on the border and off strong
/// edges, else the mean proximity of the strong edges around it, at most one.
pub open spec fn blend_weight(w: int, h: int, e: Seq<u32>, x: int, y: int) -> int {
    if 1 <= x < w - 1 && 1 <= y < h - 1 && flag_at(w, h, e, x, y) {
        let c = strong_count(w, h, e, x, y, 9);
        let m = if c > 0 {
            pattern_sum(w, h, e, x, y, 9) / c
        } else {
            0
        };
        if m > WEIGHT_ONE {
            WEIGHT_ONE as int
        } else {
            m
        }
    } else {
        0
    }
}

pub open spec fn blend_weights(w: int, h: int, e: Seq<u32>) -> Seq<u32> {
    Seq::new((w * h) as nat, |j: int| blend_weight(w, h, e, j % w, j / w) as u32)
}

/// Fixed-point attenuation of a neighbour sample: `1 / (1 + 2 distance)`.
pub open spec fn atten(t: int) -> int {
    if offset_dx(t) == 0 || offset_dy(t) == 0 {
        ATTEN_ORTHO as int
    } else {
        ATTEN_DIAG as int
    }
}

/// Weighted neighbour values over the first `t` window positions, centre excluded.
pub open spec fn blend_num(w: int, h: int, s: Seq<u8>, wt: int, x: int, y: int, t: int) -> int
    decreases t,
{
    if t <= 0 {
        0
    } else {
        blend_num(w, h, s, wt, x, y, t - 1) + if t - 1 == 4 {
            0
        } else {
            s_at(w, h, s, x + offset_dx(t - 1), y + offset_dy(t - 1)) * (wt * atten(t - 1))
        }
    }
}

/// Neighbour weights over the first `t` window positions, centre excluded.
pub open spec fn blend_den(wt: int, t: int) -> int
    decreases t,
{
    if t <= 0 {
        0
    } else {
        blend_den(wt, t - 1) + if t - 1 == 4 {
            0
        } else {
            wt * atten(t - 1)
        }
    }
}

/// The pixel blended with its eight neighbours under blend weight `wt`.
pub open spec fn blended_value(w: int, h: int, s: Seq<u8>, wt: int, x: int, y: int) -> u8 {
    if wt < MIN_BLEND_WEIGHT {
        pixel(w, s, x, y)
    } else {
        let keep = (WEIGHT_ONE - wt) * WEIGHT_ONE;
        clamp_byte((pixel(w, s, x, y) as int * keep + blend_num(w, h, s, wt, x, y, 9)) / (keep
            + blend_den(wt, 9)))
    }
}

pub open spec fn blended(w: int, h: int, s: Seq<u8>, ws: Seq<u32>) -> Seq<u8> {
    Seq::new((w * h) as nat, |j: int| blended_value(w, h, s, ws[j] as int, j % w, j / w))
}

/// The whole anti-aliasing pass on a plane.
pub open spec fn antialiased(w: int, h: int, s: Seq<u8>) -> Seq<u8> {
    blended(w, h, s, blend_weights(w, h, edge_strengths(w, h, s)))
}

proof fn lemma_sobel_x_sum(w: int, h: int, s: Seq<u8>, k: Kernel, x: int, y: int)
    requires
        k.size == 3,
        k@.weights == seq![-1i32, 0i32, 1i32, -2i32, 0i32, 2i32, -1i32, 0i32, 1i32],
    ensures
        conv_sum(w, h, s, k@, x, y, 9) == sobel_gx(w, h, s, x, y),
{
    reveal_with_fuel(conv_sum, 10);
    assert forall|i: int| 0 <= i < 9 implies #[trigger] crate::convolve::tap(w, h, s, k@, x, y, i)
        == k@.weights[i] as int * s_at(w, h, s, x + offset_dx(i), y + offset_dy(i)) by {
        assert(i / 3 - 1 == offset_dy(i));
        assert(i % 3 - 1 == offset_dx(i));
    }
    let t = |i: int| crate::convolve::tap(w, h, s, k@, x, y, i);
    assert(conv_sum(w, h, s, k@, x, y, 9) == t(0) + t(1) + t(2) + t(3) + t(4) + t(5) + t(6) + t(7) + t(8));
    assert(k@.weights[0] == -1 && k@.weights[1] == 0 && k@.weights[2] == 1);
    assert(k@.weights[3] == -2 && k@.weights[4] == 0 && k@.weights[5] == 2);
    assert(k@.weights[6] == -1 && k@.weights[7] == 0 && k@.weights[8] == 1);
    assert(offset_dx(0) == -1 && offset_dy(0) == -1);
    assert(offset_dx(1) == 0 && offset_dy(1) == -1);
    assert(offset_dx(2) == 1 && offset_dy(2) == -1);
    assert(offset_dx(3) == -1 && offset_dy(3) == 0);
    assert(offset_dx(4) == 0 && offset_dy(4) == 0);
    assert(offset_dx(5) == 1 && offset_dy(5) == 0);
    assert(offset_dx(6) == -1 && offset_dy(6) == 1);
    assert(offset_dx(7) == 0 && offset_dy(7) == 1);
    assert(offset_dx(8) == 1 && offset_dy(8) == 1);
}

proof fn lemma_sobel_y_sum(w: int, h: int, s: Seq<u8>, k: Kernel, x: int, y: int)
    requires
        k.size == 3,
        k@.weights == seq![-1i32, -2i32, -1i32, 0i32, 0i32, 0i32, 1i32, 2i32, 1i32],
    ensures
        conv_sum(w, h, s, k@, x, y, 9) == sobel_gy(w, h, s, x, y),
{
    reveal_with_fuel(conv_sum, 10);
    assert forall|i: int| 0 <= i < 9 implies #[trigger] crate::convolve::tap(w, h, s, k@, x, y, i)
        == k@.weights[i] as int * s_at(w, h, s, x + offset_dx(i), y + offset_dy(i)) by {
        assert(i / 3 - 1 == offset_dy(i));
        assert(i % 3 - 1 == offset_dx(i));
    }
    let t = |i: int| crate::convolve::tap(w, h, s, k@, x, y, i);
    assert(conv_sum(w, h, s, k@, x, y, 9) == t(0) + t(1) + t(2) + t(3) + t(4) + t(5) + t(6) + t(7) + t(8));
    assert(k@.weights[0] == -1 && k@.weights[1] == -2 && k@.weights[2] == -1);
    assert(k@.weights[3] == 0 && k@.weights[4] == 0 && k@.weights[5] == 0);
    assert(k@.weights[6] == 1 && k@.weights[7] == 2 && k@.weights[8] == 1);
    assert(offset_dx(0) == -1 && offset_dy(0) == -1);
    assert(offset_dx(1) == 0 && offset_dy(1) == -1);
    assert(offset_dx(2) == 1 && offset_dy(2) == -1);
    assert(offset_dx(3) == -1 && offset_dy(3) == 0);
    assert(offset_dx(4) == 0 && offset_dy(4) == 0);
    assert(offset_dx(5) == 1 && offset_dy(5) == 0);
    assert(offset_dx(6) == -1 && offset_dy(6) == 1);
    assert(offset_dx(7) == 0 && offset_dy(7) == 1);
    assert(offset_dx(8) == 1 && offset_dy(8) == 1);
}

/// Squared Sobel magnitude at `(x, y)`, from the two Sobel kernels.
fn grad_sq_at(p: &Plane, kx: &Kernel, ky: &Kernel, x: u32, y: u32) -> (r: i64)
    requires
        p.wf(),
        kx.wf(),
        ky.wf(),
        kx.size == 3,
        ky.size == 3,
        kx@.weights == seq![-1i32, 0i32, 1i32, -2i32, 0i32, 2i32, -1i32, 0i32, 1i32],
        ky@.weights == seq![-1i32, -2i32, -1i32, 0i32, 0i32, 0i32, 1i32, 2i32, 1i32],
        x < p.width,
        y < p.height,
    ensures
        r as int == grad_sq(p.width as int, p.height as int, p.data@, x as int, y as int),
        r >= 0,
{
    let gx = weighted_sum(p, kx, x, y);
    let gy = weighted_sum(p, ky, x, y);
    proof {
        lemma_sobel_x_sum(p.width as int, p.height as int, p.data@, *kx, x as int, y as int);
        lemma_sobel_y_sum(p.width as int, p.height as int, p.data@, *ky, x as int, y as int);
    }
    assert(0 <= gx * gx <= 150405120 * 150405120) by (nonlinear_arith)
        requires
            -150405120 <= gx <= 150405120,
    ;
    assert(0 <= gy * gy <= 150405120 * 150405120) by (nonlinear_arith)
        requires
            -150405120 <= gy <= 150405120,
    ;
    gx * gx + gy * gy
}

proof fn lemma_root_from_range(v: int, limit: int)
    requires
        limit >= 0,
    ensures
        0 <= root_from(v, limit) <= limit,
    decreases limit,
{
    if limit > 0 {
        lemma_root_from_range(v, limit - 1);
    }
}

/// Integer square root of a non-negative value, saturated to a byte.
pub fn isqrt_byte(v: i64) -> (r: u8)
    requires
        v >= 0,
    ensures
        r == byte_sqrt(v as int),
{
    let mut r: i64 = 255;
    let mut sq: i64 = 65025;
    while r > 0 && sq > v
        invariant
            0 <= r <= 255,
            sq == r * r,
            root_from(v as int, 255) == root_from(v as int, r as int),
        decreases r,
    {
        assert((r - 1) * (r - 1) == r * r - 2 * r + 1) by (nonlinear_arith);
        sq = sq - 2 * r + 1;
        r -= 1;
    }
    proof {
        lemma_root_from_range(v as int, 255);
    }
    r as u8
}

/// Edge-magnitude tone plane: the Euclidean Sobel magnitude of each pixel,
/// saturated to a byte.
pub fn edge_magnitude(p: &Plane) -> (r: Plane)
    requires
        p.wf(),
    ensures
        r.wf(),
        r.width == p.width,
        r.height == p.height,
        r.data@ == edge_plane(p.width as int, p.height as int, p.data@),
{
    let kx = sobel_x_kernel();
    let ky = sobel_y_kernel();
    let w = p.width;
    let h = p.height;
    let mut out: Vec<u8> = Vec::new();
    let mut y: u32 = 0;
    while y < h
        invariant
            p.wf(),
            kx.wf(),
            ky.wf(),
            kx.size == 3,
            ky.size == 3,
            kx@.weights == seq![-1i32, 0i32, 1i32, -2i32, 0i32, 2i32, -1i32, 0i32, 1i32],
            ky@.weights == seq![-1i32, -2i32, -1i32, 0i32, 0i32, 0i32, 1i32, 2i32, 1i32],
            w == p.width,
            h == p.height,
            y <= h,
            out@.len() == y * w,
            forall|j: int|
                0 <= j < out@.len() ==> #[trigger] out@[j] == byte_sqrt(
                    grad_sq(w as int, h as int, p.data@, j % (w as int), j / (w as int)),
                ),
        decreases h - y,
    {
        let mut x: u32 = 0;
        while x < w
            invariant
                p.wf(),
                kx.wf(),
                ky.wf(),
                kx.size == 3,
                ky.size == 3,
                kx@.weights == seq![-1i32, 0i32, 1i32, -2i32, 0i32, 2i32, -1i32, 0i32, 1i32],
                ky@.weights == seq![-1i32, -2i32, -1i32, 0i32, 0i32, 0i32, 1i32, 2i32, 1i32],
                w == p.width,
                h == p.height,
                y < h,
                x <= w,
                out@.len() == y * w + x,
                forall|j: int|
                    0 <= j < out@.len() ==> #[trigger] out@[j] == byte_sqrt(
                        grad_sq(w as int, h as int, p.data@, j % (w as int), j / (w as int)),
                    ),
            decreases w - x,
        {
            let g = grad_sq_at(p, &kx, &ky, x, y);
            let v = isqrt_byte(g);
            proof {
                lemma_index(x as int, y as int, w as int, h as int);
            }
            out.push(v);
            x += 1;
        }
        assert((y + 1) * w == y * w + w) by (nonlinear_arith);
        y += 1;
    }
    assert(h * w == w * h) by (nonlinear_arith);
    assert(out@ =~= edge_plane(w as int, h as int, p.data@));
    Plane { width: w, height: h, data: out }
}

/// First anti-aliasing step: the edge map of squared Sobel magnitudes. Both
/// responses come from the convolution engine, so each is saturated to
/// `0..=255` before the magnitude is taken.
pub fn smaa_edge_detection(p: &Plane) -> (e: Vec<u32>)
    requires
        p.wf(),
    ensures
        e@ == edge_strengths(p.width as int, p.height as int, p.data@),
{
    let kx = sobel_x_kernel();
    let ky = sobel_y_kernel();
    let gx = convolve(p, &kx);
    let gy = convolve(p, &ky);
    let ghost w = p.width as int;
    let ghost h = p.height as int;
    let n = p.data.len();
    let mut out: Vec<u32> = Vec::new();
    let mut j: usize = 0;
    while j < n
        invariant
            p.wf(),
            w == p.width,
            h == p.height,
            n == p.data@.len(),
            kx.size == 3,
            ky.size == 3,
            kx.divisor == 1,
            ky.divisor == 1,
            kx@.weights == seq![-1i32, 0i32, 1i32, -2i32, 0i32, 2i32, -1i32, 0i32, 1i32],
            ky@.weights == seq![-1i32, -2i32, -1i32, 0i32, 0i32, 0i32, 1i32, 2i32, 1i32],
            gx.data@ == convolved(w, h, p.data@, kx@),
            gy.data@ == convolved(w, h, p.data@, ky@),
            j <= n,
            out@.len() == j,
            forall|q: int| 0 <= q < j ==> #[trigger] out@[q] == edge_strengths(w, h, p.data@)[q],
        decreases n - j,
    {
        proof {
            lemma_sobel_x_sum(w, h, p.data@, kx, j as int % w, j as int / w);
            lemma_sobel_y_sum(w, h, p.data@, ky, j as int % w, j as int / w);
        }
        let a = gx.data[j] as u32;
        let b = gy.data[j] as u32;
        proof {
            let x = j as int % w;
            let y = j as int / w;
            let sx = sobel_gx(w, h, p.data@, x, y);
            let sy = sobel_gy(w, h, p.data@, x, y);
            assert(sx / 1 == sx && sy / 1 == sy);
            assert(a == clamp_byte(sx));
            assert(b == clamp_byte(sy));
            assert(a * a <= 65025 && b * b <= 65025) by (nonlinear_arith)
                requires
                    a <= 255,
                    b <= 255,
            ;
        }
        out.push(a * a + b * b);
        j += 1;
    }
    assert(out@ =~= edge_strengths(w, h, p.data@));
    out
}

/// Whether entry `(x, y)` of a `w` x `h` edge map, with coordinates clamped
/// into the map, marks a strong edge.
fn flag(e: &Vec<u32>, w: u32, h: u32, x: i64, y: i64) -> (r: bool)
    requires
        w >= 1,
        h >= 1,
        e@.len() == w * h,
    ensures
        r == flag_at(w as int, h as int, e@, x as int, y as int),
{
    let wi = w as i64;
    let hi = h as i64;
    let cx: i64 = if x < 0 { 0 } else if x >= wi { wi - 1 } else { x };
    let cy: i64 = if y < 0 { 0 } else if y >= hi { hi - 1 } else { y };
    let len = e.len();
    proof {
        lemma_index(cx as int, cy as int, w as int, h as int);
        assert(0 <= (cy as int) * (w as int)) by (nonlinear_arith)
            requires
                cy >= 0,
                w >= 0,
        ;
    }
    e[(cy as usize) * (w as usize) + (cx as usize)] > EDGE_THRESHOLD_SQ as u32
}

fn proximity_of(t: usize) -> (r: i64)
    requires
        t < 9,
    ensures
        r == proximity(t as int),
{
    if t == 4 {
        PROXIMITY_CENTRE
    } else if t % 3 == 1 || t / 3 == 1 {
        PROXIMITY_ORTHO
    } else {
        PROXIMITY_DIAG
    }
}

fn atten_of(t: usize) -> (r: i64)
    requires
        t < 9,
    ensures
        r == atten(t as int),
{
    if t % 3 == 1 || t / 3 == 1 {
        ATTEN_ORTHO
    } else {
        ATTEN_DIAG
    }
}

fn blend_weight_at(e: &Vec<u32>, w: u32, h: u32, x: u32, y: u32) -> (r: u32)
    requires
        w >= 1,
        h >= 1,
        e@.len() == w * h,
    ensures
        r as int == blend_weight(w as int, h as int, e@, x as int, y as int),
        r <= WEIGHT_ONE,
{
    if x >= 1 && (x as u64) + 1 < w as u64 && y >= 1 && (y as u64) + 1 < h as u64 && flag(e, w, h, x as i64, y as i64) {
        let mut pat: i64 = 0;
        let mut cnt: i64 = 0;
        let mut t: usize = 0;
        while t < 9
            invariant
                w >= 1,
                h >= 1,
                e@.len() == w * h,
                t <= 9,
                pat == pattern_sum(w as int, h as int, e@, x as int, y as int, t as int),
                cnt == strong_count(w as int, h as int, e@, x as int, y as int, t as int),
                0 <= pat <= t * WEIGHT_ONE,
                0 <= cnt <= t,
            decreases 9 - t,
        {
            let dx: i64 = (t % 3) as i64 - 1;
            let dy: i64 = (t / 3) as i64 - 1;
            if flag(e, w, h, x as i64 + dx, y as i64 + dy) {
                pat = pat + proximity_of(t);
                cnt = cnt + 1;
            }
            t += 1;
        }
        let m: i64 = if cnt > 0 {
            pat / cnt
        } else {
            0
        };
        if m > WEIGHT_ONE {
            WEIGHT_ONE as u32
        } else {
            m as u32
        }
    } else {
        0
    }
}

/// Second anti-aliasing step: a fixed-point blend weight for each pixel of a
/// strong-edge map.
pub fn smaa_blend_weights(e: &Vec<u32>, w: u32, h: u32) -> (r: Vec<u32>)
    requires
        w >= 1,
        h >= 1,
        e@.len() == w * h,
    ensures
        r@ == blend_weights(w as int, h as int, e@),
        forall|j: int| 0 <= j < r@.len() ==> r@[j] <= WEIGHT_ONE,
{
    let mut out: Vec<u32> = Vec::new();
    let mut y: u32 = 0;
    while y < h
        invariant
            w >= 1,
            h >= 1,
            e@.len() == w * h,
            y <= h,
            out@.len() == y * w,
            forall|j: int|
                0 <= j < out@.len() ==> #[trigger] out@[j] == blend_weight(
                    w as int,
                    h as int,
                    e@,
                    j % (w as int),
                    j / (w as int),
                ) as u32 && out@[j] <= WEIGHT_ONE,
        decreases h - y,
    {
        let mut x: u32 = 0;
        while x < w
            invariant
                w >= 1,
                h >= 1,
                e@.len() == w * h,
                y < h,
                x <= w,
                out@.len() == y * w + x,
                forall|j: int|
                    0 <= j < out@.len() ==> #[trigger] out@[j] == blend_weight(
                        w as int,
                        h as int,
                        e@,
                        j % (w as int),
                        j / (w as int),
                    ) as u32 && out@[j] <= WEIGHT_ONE,
            decreases w - x,
        {
            let v = blend_weight_at(e, w, h, x, y);
            proof {
                lemma_index(x as int, y as int, w as int, h as int);
            }
            out.push(v);
            x += 1;
        }
        assert((y + 1) * w == y * w + w) by (nonlinear_arith);
        y += 1;
    }
    assert(h * w == w * h) by (nonlinear_arith);
    assert(out@ =~= blend_weights(w as int, h as int, e@));
    out
}

fn blended_pixel(p: &Plane, wt: u32, x: u32, y: u32) -> (r: u8)
    requires
        p.wf(),
        wt <= WEIGHT_ONE,
        x < p.width,
        y < p.height,
    ensures
        r == blended_value(p.width as int, p.height as int, p.data@, wt as int, x as int, y as int),
{
    let w = p.width;
    let h = p.height;
    let len = p.data.len();
    proof {
        lemma_index(x as int, y as int, w as int, h as int);
    }
    let v = p.data[(y as usize) * (w as usize) + (x as usize)];
    if (wt as i64) < MIN_BLEND_WEIGHT {
        return v;
    }
    let wi = wt as i64;
    let mut num: i64 = 0;
    let mut den: i64 = 0;
    let mut t: usize = 0;
    while t < 9
        invariant
            p.wf(),
            w == p.width,
            h == p.height,
            MIN_BLEND_WEIGHT <= wi <= WEIGHT_ONE,
            t <= 9,
            num == blend_num(w as int, h as int, p.data@, wi as int, x as int, y as int, t as int),
            den == blend_den(wi as int, t as int),
            0 <= num <= t * 1425715200,
            0 <= den <= t * 5591040,
            t >= 1 ==> den >= wi * ATTEN_DIAG,
        decreases 9 - t,
    {
        if t != 4 {
            let a = atten_of(t);
            let q = sample(p, x as i64 + ((t % 3) as i64 - 1), y as i64 + ((t / 3) as i64 - 1));
            assert(0 <= wi * a <= 5591040) by (nonlinear_arith)
                requires
                    0 <= wi <= 4096,
                    0 <= a <= 1365,
            ;
            assert(0 <= q * (wi * a) <= 1425715200) by (nonlinear_arith)
                requires
                    0 <= wi * a <= 5591040,
                    0 <= q <= 255,
            ;
            num = num + (q as i64) * (wi * a);
            den = den + wi * a;
        }
        t += 1;
    }
    let keep: i64 = (WEIGHT_ONE - wi) * WEIGHT_ONE;
    assert(0 <= (v as i64) * keep <= 255 * 16777216) by (nonlinear_arith)
        requires
            0 <= keep <= 16777216,
            0 <= v <= 255,
    ;
    let total = keep + den;
    let r = (v as i64 * keep + num) / total;
    to_byte(r)
}

/// Third anti-aliasing step: blends each pixel with its eight neighbours,
/// weighted by distance and by the pixel's blend weight.
pub fn smaa_neighborhood_blending(p: &Plane, weights: &Vec<u32>) -> (r: Plane)
    requires
        p.wf(),
        weights@.len() == p.data@.len(),
        forall|j: int| 0 <= j < weights@.len() ==> weights@[j] <= WEIGHT_ONE,
    ensures
        r.wf(),
        r.width == p.width,
        r.height == p.height,
        r.data@ == blended(p.width as int, p.height as int, p.data@, weights@),
{
    let w = p.width;
    let h = p.height;
    let len = weights.len();
    let mut out: Vec<u8> = Vec::new();
    let mut y: u32 = 0;
    while y < h
        invariant
            p.wf(),
            w == p.width,
            h == p.height,
            len == w * h,
            weights@.len() == w * h,
            forall|j: int| 0 <= j < weights@.len() ==> weights@[j] <= WEIGHT_ONE,
            y <= h,
            out@.len() == y * w,
            forall|j: int|
                0 <= j < out@.len() ==> #[trigger] out@[j] == blended_value(
                    w as int,
                    h as int,
                    p.data@,
                    weights@[j] as int,
                    j % (w as int),
                    j / (w as int),
                ),
        decreases h - y,
    {
        let mut x: u32 = 0;
        while x < w
            invariant
                p.wf(),
                w == p.width,
                h == p.height,
                len == w * h,
                weights@.len() == w * h,
                forall|j: int| 0 <= j < weights@.len() ==> weights@[j] <= WEIGHT_ONE,
                y < h,
                x <= w,
                out@.len() == y * w + x,
                forall|j: int|
                    0 <= j < out@.len() ==> #[trigger] out@[j] == blended_value(
                        w as int,
                        h as int,
                        p.data@,
                        weights@[j] as int,
                        j % (w as int),
                        j / (w as int),
                    ),
            decreases w - x,
        {
            proof {
                lemma_index(x as int, y as int, w as int, h as int);
            }
            let wt = weights[(y as usize) * (w as usize) + (x as usize)];
            let v = blended_pixel(p, wt, x, y);
            out.push(v);
            x += 1;
        }
        assert((y + 1) * w == y * w + w) by (nonlinear_arith);
        y += 1;
    }
    assert(h * w == w * h) by (nonlinear_arith);
    assert(out@ =~= blended(w as int, h as int, p.data@, weights@));
    Plane { width: w, height: h, data: out }
}

/// Morphological anti-aliasing: edge detection, blend weights, then
/// neighbourhood blending.
pub fn smaa_antialiasing(p: &Plane) -> (r: Plane)
    requires
        p.wf(),
    ensures
        r.wf(),
        r.width == p.width,
        r.height == p.height,
        r.data@ == antialiased(p.width as int, p.height as int, p.data@),
{
    let edges = smaa_edge_detection(p);
    let weights = smaa_blend_weights(&edges, p.width, p.height);
    smaa_neighborhood_blending(p, &weights)
}

/// Anti-aliasing leaves border pixels, and pixels whose Sobel magnitude is at
/// most the edge threshold, exactly as they were.
pub proof fn lemma_antialias_keeps_border_and_weak(w: int, h: int, s: Seq<u8>, x: int, y: int)
    requires
        plane_shape(w, h, s),
        0 <= x < w,
        0 <= y < h,
        x == 0 || y == 0 || x == w - 1 || y == h - 1 || edge_strengths(w, h, s)[y * w + x]
            <= EDGE_THRESHOLD_SQ,
    ensures
        antialiased(w, h, s)[y * w + x] == pixel(w, s, x, y),
{
    lemma_index(x, y, w, h);
    let e = edge_strengths(w, h, s);
    assert(flag_at(w, h, e, x, y) == (e[y * w + x] > EDGE_THRESHOLD_SQ));
    assert(blend_weight(w, h, e, x, y) == 0);
    assert(blend_weights(w, h, e)[y * w + x] == 0);
}

proof fn lemma_uniform_sample(w: int, h: int, s: Seq<u8>, c: u8, x: int, y: int)
    requires
        plane_shape(w, h, s),
        forall|i: int| 0 <= i < s.len() ==> s[i] == c,
    ensures
        s_at(w, h, s, x, y) == c as int,
{
    let cx = clamp_coord(x, w);
    let cy = clamp_coord(y, h);
    assert(0 <= cx < w && 0 <= cy < h);
    lemma_index(cx, cy, w, h);
}

proof fn lemma_uniform_sobel(w: int, h: int, s: Seq<u8>, c: u8, x: int, y: int)
    requires
        plane_shape(w, h, s),
        forall|i: int| 0 <= i < s.len() ==> s[i] == c,
    ensures
        sobel_gx(w, h, s, x, y) == 0,
        sobel_gy(w, h, s, x, y) == 0,
{
    lemma_uniform_sample(w, h, s, c, x - 1, y - 1);
    lemma_uniform_sample(w, h, s, c, x, y - 1);
    lemma_uniform_sample(w, h, s, c, x + 1, y - 1);
    lemma_uniform_sample(w, h, s, c, x - 1, y);
    lemma_uniform_sample(w, h, s, c, x + 1, y);
    lemma_uniform_sample(w, h, s, c, x - 1, y + 1);
    lemma_uniform_sample(w, h, s, c, x, y + 1);
    lemma_uniform_sample(w, h, s, c, x + 1, y + 1);
}

proof fn lemma_root_of_zero(limit: int)
    requires
        limit >= 0,
    ensures
        root_from(0, limit) == 0,
    decreases limit,
{
    if limit > 0 {
        assert(limit * limit > 0) by (nonlinear_arith)
            requires
                limit > 0,
        ;
        lemma_root_of_zero(limit - 1);
    }
}

/// A uniform plane has no edges: its edge-magnitude plane is all zero and
/// anti-aliasing leaves it unchanged.
pub proof fn lemma_uniform_has_no_edges(w: int, h: int, s: Seq<u8>, c: u8)
    requires
        plane_shape(w, h, s),
        forall|i: int| 0 <= i < s.len() ==> s[i] == c,
    ensures
        forall|i: int| 0 <= i < s.len() ==> #[trigger] edge_plane(w, h, s)[i] == 0,
        antialiased(w, h, s) == s,
{
    lemma_root_of_zero(255);
    assert forall|i: int| 0 <= i < s.len() implies #[trigger] edge_plane(w, h, s)[i] == 0 by {
        lemma_uniform_sobel(w, h, s, c, i % w, i / w);
    }
    assert forall|j: int| 0 <= j < s.len() implies antialiased(w, h, s)[j] == s[j] by {
        let x = j % w;
        let y = j / w;
        vstd::arithmetic::div_mod::lemma_fundamental_div_mod(j, w);
        assert(0 <= y < h) by (nonlinear_arith)
            requires
                y == j / w,
                0 <= j < w * h,
                w >= 1,
        {
            vstd::arithmetic::div_mod::lemma_div_pos_is_pos(j, w);
            vstd::arithmetic::div_mod::lemma_div_is_ordered(j, w * h - 1, w);
        }
        assert(j == y * w + x) by (nonlinear_arith)
            requires
                j == w * (j / w) + j % w,
                x == j % w,
                y == j / w,
        ;
        lemma_index(x, y, w, h);
        lemma_uniform_sobel(w, h, s, c, x, y);
        assert(clamped_grad_sq(w, h, s, x, y) == 0);
        assert(edge_strengths(w, h, s)[y * w + x] == 0);
        lemma_antialias_keeps_border_and_weak(w, h, s, x, y);
    }
    assert(antialiased(w, h, s) =~= s);
}

} // verus!
