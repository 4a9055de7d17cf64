use vstd::prelude::*;
use crate::kernel::{Kernel, KernelModel, MAX_WEIGHT, weight_sum};
use crate::grid::grid_get;
use crate::plane::{Plane, plane_shape, clamp_byte, clamp_coord, pixel, lemma_index, to_byte};

verus! {

/// Largest magnitude of one weighted tap: a weight times a byte.
pub const MAX_TAP: i64 = 16711680;

/// Weighted value of tap `i` of kernel `k` centred on pixel `(x, y)`, with
/// replicated borders.
pub open spec fn tap(w: int, h: int, s: Seq<u8>, k: KernelModel, x: int, y: int, i: int) -> int {
    let n = k.size;
    let half = n / 2;
    let py = clamp_coord(y + i / n - half, h);
    let px = clamp_coord(x + i % n - half, w);
    k.weights[i] as int * pixel(w, s, px, py) as int
}

/// Sum of the first `m` weighted taps around pixel `(x, y)`.
pub open spec fn conv_sum(w: int, h: int, s: Seq<u8>, k: KernelModel, x: int, y: int, m: int) -> int
    decreases m,
{
    if m <= 0 {
        0
    } else {
        conv_sum(w, h, s, k, x, y, m - 1) + tap(w, h, s, k, x, y, m - 1)
    }
}

/// Output byte at `(x, y)`: the weighted sum over the divisor, rounded down
/// and saturated to a byte.
pub open spec fn conv_at(w: int, h: int, s: Seq<u8>, k: KernelModel, x: int, y: int) -> u8 {
    clamp_byte(conv_sum(w, h, s, k, x, y, k.size * k.size) / k.divisor)
}

/// The whole plane convolved with `k`.
pub open spec fn convolved(w: int, h: int, s: Seq<u8>, k: KernelModel) -> Seq<u8> {
    Seq::new((w * h) as nat, |j: int| conv_at(w, h, s, k, j % w, j / w))
}

/// Moves a signed coordinate back into `0..n`.
fn clamp_index(v: i64, n: usize) -> (r: usize)
    requires
        1 <= n <= u32::MAX,
    ensures
        r as int == clamp_coord(v as int, n as int),
{
    if v < 0 {
        0
    } else if v >= n as i64 {
        n - 1
    } else {
        v as usize
    }
}

proof fn lemma_clamp_coord_range(v: int, n: int)
    requires
        n >= 1,
    ensures
        0 <= clamp_coord(v, n) < n,
{
}

/// The raw weighted sum around `(x, y)`, before division.
pub fn weighted_sum(p: &Plane, k: &Kernel, x: u32, y: u32) -> (r: i64)
    requires
        p.wf(),
        k.wf(),
        x < p.width,
        y < p.height,
    ensures
        r as int == conv_sum(
            p.width as int,
            p.height as int,
            p.data@,
            k@,
            x as int,
            y as int,
            (k.size * k.size) as int,
        ),
        -(k.size * k.size) * MAX_TAP <= r <= (k.size * k.size) * MAX_TAP,
{
    let w = p.width as usize;
    let h = p.height as usize;
    let n = k.size;
    let half = n / 2;
    proof {
        crate::kernel::lemma_square_bound(n);
    }
    let total = n * n;
    let len = p.data.len();
    let mut sum: i64 = 0;
    let mut i: usize = 0;
    while i < total
        invariant
            p.wf(),
            k.wf(),
            w == p.width,
            h == p.height,
            n == k.size,
            half == n / 2,
            total == n * n,
            total <= 961,
            len == p.data@.len(),
            x < w,
            y < h,
            i <= total,
            sum == conv_sum(w as int, h as int, p.data@, k@, x as int, y as int, i as int),
            -(i as int) * MAX_TAP <= sum <= (i as int) * MAX_TAP,
        decreases total - i,
    {
        let ky = i / n;
        let kx = i % n;
        let py = clamp_index(y as i64 + ky as i64 - half as i64, h);
        let px = clamp_index(x as i64 + kx as i64 - half as i64, w);
        proof {
            lemma_clamp_coord_range(y + ky - half, h as int);
            lemma_clamp_coord_range(x + kx - half, w as int);
            lemma_index(px as int, py as int, w as int, h as int);
        }
        let v = p.data[py * w + px];
        proof {
            vstd::arithmetic::div_mod::lemma_fundamental_div_mod(i as int, n as int);
            assert(n * ky + kx == i);
            assert(ky * n == n * ky) by (nonlinear_arith);
            assert(ky < n) by (nonlinear_arith)
                requires
                    ky * n + kx == i,
                    i < n * n,
                    kx >= 0,
                    n >= 1,
            ;
        }
        let wt = grid_get(&k.weights, ky, kx);
        assert(-MAX_WEIGHT <= wt <= MAX_WEIGHT);
        assert(-MAX_TAP <= wt * v <= MAX_TAP) by (nonlinear_arith)
            requires
                -65536 <= wt <= 65536,
                0 <= v <= 255,
        ;
        sum = sum + (wt as i64) * (v as i64);
        i += 1;
    }
    sum
}

/// Convolution of one pixel.
fn conv_pixel(p: &Plane, k: &Kernel, x: u32, y: u32) -> (r: u8)
    requires
        p.wf(),
        k.wf(),
        x < p.width,
        y < p.height,
    ensures
        r == conv_at(p.width as int, p.height as int, p.data@, k@, x as int, y as int),
{
    let sum = weighted_sum(p, k, x, y);
    if sum < 0 {
        assert(sum as int / k.divisor as int <= -1) by (nonlinear_arith)
            requires
                sum < 0,
                k.divisor > 0,
        ;
        0
    } else {
        let q = (sum as u64) / (k.divisor as u64);
        to_byte(q as i64)
    }
}

/// Convolves a plane with a kernel, clamping coordinates at the borders
/// (replicated edges) and saturating each result to a byte.
pub fn convolve(p: &Plane, k: &Kernel) -> (r: Plane)
    requires
        p.wf(),
        k.wf(),
    ensures
        r.wf(),
        r.width == p.width,
        r.height == p.height,
        r.data@ == convolved(p.width as int, p.height as int, p.data@, k@),
{
    let w = p.width;
    let h = p.height;
    let mut out: Vec<u8> = Vec::new();
    let mut y: u32 = 0;
    while y < h
        invariant
            p.wf(),
            k.wf(),
            w == p.width,
            h == p.height,
            y <= h,
            out@.len() == y * w,
            forall|j: int|
                0 <= j < out@.len() ==> #[trigger] out@[j] == conv_at(
                    w as int,
                    h as int,
                    p.data@,
                    k@,
                    j % (w as int),
                    j / (w as int),
                ),
        decreases h - y,
    {
        let mut x: u32 = 0;
        while x < w
            invariant
                p.wf(),
                k.wf(),
                w == p.width,
                h == p.height,
                y < h,
                x <= w,
                out@.len() == y * w + x,
                forall|j: int|
                    0 <= j < out@.len() ==> #[trigger] out@[j] == conv_at(
                        w as int,
                        h as int,
                        p.data@,
                        k@,
                        j % (w as int),
                        j / (w as int),
                    ),
            decreases w - x,
        {
            let v = conv_pixel(p, k, x, y);
            proof {
                lemma_index(x as int, y as int, w as int, h as int);
            }
            out.push(v);
            x += 1;
        }
        assert((y + 1) * w == y * w + w) by (nonlinear_arith);
        y += 1;
    }
    assert(h * w == w * h) by (nonlinear_arith);
    assert(out@ =~= convolved(w as int, h as int, p.data@, k@));
    Plane { width: w, height: h, data: out }
}

proof fn lemma_conv_sum_uniform(w: int, h: int, s: Seq<u8>, k: KernelModel, x: int, y: int, m: int, c: u8)
    requires
        plane_shape(w, h, s),
        k.is_averaging(),
        forall|i: int| 0 <= i < s.len() ==> s[i] == c,
        0 <= x < w,
        0 <= y < h,
        0 <= m <= k.size * k.size,
    ensures
        conv_sum(w, h, s, k, x, y, m) == c as int * weight_sum(k.weights, m),
    decreases m,
{
    if m > 0 {
        lemma_conv_sum_uniform(w, h, s, k, x, y, m - 1, c);
        let n = k.size;
        let i = m - 1;
        let py = clamp_coord(y + i / n - n / 2, h);
        let px = clamp_coord(x + i % n - n / 2, w);
        lemma_clamp_coord_range(y + i / n - n / 2, h);
        lemma_clamp_coord_range(x + i % n - n / 2, w);
        lemma_index(px, py, w, h);
        let a = weight_sum(k.weights, m - 1);
        let b = k.weights[i] as int;
        assert(c as int * a + b * c as int == c as int * (a + b)) by (nonlinear_arith);
    }
}

/// Convolving a uniform plane with a kernel whose weights sum to one gives
/// back the same plane: replicated borders introduce no drift.
pub proof fn lemma_convolve_uniform(w: int, h: int, s: Seq<u8>, k: KernelModel, c: u8)
    requires
        plane_shape(w, h, s),
        k.is_averaging(),
        forall|i: int| 0 <= i < s.len() ==> s[i] == c,
    ensures
        convolved(w, h, s, k) == s,
{
    assert forall|j: int| 0 <= j < s.len() implies convolved(w, h, s, k)[j] == s[j] by {
        let x = j % w;
        let y = j / w;
        vstd::arithmetic::div_mod::lemma_fundamental_div_mod(j, w);
        assert(0 <= y < h) by (nonlinear_arith)
            requires
                y == j / w,
                0 <= j < w * h,
                w >= 1,
        {
            vstd::arithmetic::div_mod::lemma_div_pos_is_pos(j, w);
            vstd::arithmetic::div_mod::lemma_div_is_ordered(j, w * h - 1, w);
        }
        lemma_conv_sum_uniform(w, h, s, k, x, y, k.size * k.size, c);
        let d = k.divisor;
        assert((c as int * d) / d == c as int) by (nonlinear_arith)
            requires
                d > 0,
        {
            vstd::arithmetic::div_mod::lemma_div_multiples_vanish(c as int, d);
        }
    }
    assert(convolved(w, h, s, k) =~= s);
}

} // verus!
