use vstd::prelude::*;
use crate::kernel::Kernel;
use crate::convolve::{convolve, convolved};
use crate::plane::{Plane, clamp_byte, to_byte};

verus! {

/// Mid-gray level around which the high-pass output is centred.
pub const MID_GRAY: i64 = 128;

/// High-pass value: the deviation of a pixel from its blurred neighbourhood,
/// centred at mid-gray.
pub open spec fn high_pass_value(orig: u8, blur: u8) -> u8 {
    clamp_byte(128 + orig as int - blur as int)
}

/// Divisor of the contrast remap: `255 - light_cut - dark_cut`, never below one.
pub open spec fn remap_divisor(light_cut: u8, dark_cut: u8) -> int {
    let d = 255 - light_cut as int - dark_cut as int;
    if d < 1 {
        1
    } else {
        d
    }
}

/// Contrast remap: `(v - dark_cut) * 255 / (255 - light_cut - dark_cut)`,
/// rounded down and saturated.
pub open spec fn remap_value(v: u8, light_cut: u8, dark_cut: u8) -> u8 {
    clamp_byte(((v as int - dark_cut as int) * 255) / remap_divisor(light_cut, dark_cut))
}

/// Unsharp-mask value: `v + amount/100 * (v - blur)`, rounded down and saturated.
pub open spec fn sharpen_value(v: u8, blur: u8, amount_percent: u32) -> u8 {
    clamp_byte((100 * v as int + amount_percent as int * (v as int - blur as int)) / 100)
}

pub open spec fn high_passed(a: Seq<u8>, b: Seq<u8>) -> Seq<u8> {
    Seq::new(a.len(), |i: int| high_pass_value(a[i], b[i]))
}

pub open spec fn remapped(a: Seq<u8>, light_cut: u8, dark_cut: u8) -> Seq<u8> {
    Seq::new(a.len(), |i: int| remap_value(a[i], light_cut, dark_cut))
}

pub open spec fn sharpened(a: Seq<u8>, b: Seq<u8>, amount_percent: u32) -> Seq<u8> {
    Seq::new(a.len(), |i: int| sharpen_value(a[i], b[i], amount_percent))
}

/// High-pass filter: `clamp(128 + original - blurred)` pixel by pixel.
pub fn high_pass(original: &Plane, blurred: &Plane) -> (r: Plane)
    requires
        original.wf(),
        blurred.data@.len() == original.data@.len(),
    ensures
        r.wf(),
        r.width == original.width,
        r.height == original.height,
        r.data@ == high_passed(original.data@, blurred.data@),
{
    let n = original.data.len();
    let mut out: Vec<u8> = Vec::new();
    let mut i: usize = 0;
    while i < n
        invariant
            n == original.data@.len(),
            blurred.data@.len() == n,
            i <= n,
            out@.len() == i,
            forall|j: int| 0 <= j < i ==> out@[j] == high_pass_value(original.data@[j], blurred.data@[j]),
        decreases n - i,
    {
        out.push(to_byte(MID_GRAY + original.data[i] as i64 - blurred.data[i] as i64));
        i += 1;
    }
    assert(out@ =~= high_passed(original.data@, blurred.data@));
    Plane { width: original.width, height: original.height, data: out }
}

/// Contrast remap with light and dark cuts; a divisor that the cuts would
/// bring to zero or below is raised to one.
pub fn contrast_remap(p: &Plane, light_cut: u8, dark_cut: u8) -> (r: Plane)
    requires
        p.wf(),
    ensures
        r.wf(),
        r.width == p.width,
        r.height == p.height,
        r.data@ == remapped(p.data@, light_cut, dark_cut),
{
    let raw: i64 = 255 - light_cut as i64 - dark_cut as i64;
    let d: i64 = if raw < 1 { 1 } else { raw };
    let n = p.data.len();
    let mut out: Vec<u8> = Vec::new();
    let mut i: usize = 0;
    while i < n
        invariant
            n == p.data@.len(),
            d == remap_divisor(light_cut, dark_cut),
            1 <= d <= 255,
            i <= n,
            out@.len() == i,
            forall|j: int| 0 <= j < i ==> out@[j] == remap_value(p.data@[j], light_cut, dark_cut),
        decreases n - i,
    {
        let v = p.data[i];
        let b = if v <= dark_cut {
            let ghost num = (v as int - dark_cut as int) * 255;
            assert(num / (d as int) <= 0) by (nonlinear_arith)
                requires
                    num <= 0,
                    d >= 1,
            ;
            0u8
        } else {
            let num: i64 = (v as i64 - dark_cut as i64) * 255;
            assert(num / d >= 0) by (nonlinear_arith)
                requires
                    num >= 0,
                    d >= 1,
            ;
            to_byte(num / d)
        };
        out.push(b);
        i += 1;
    }
    assert(out@ =~= remapped(p.data@, light_cut, dark_cut));
    Plane { width: p.width, height: p.height, data: out }
}

/// With both cuts at zero the contrast remap is the identity.
pub proof fn lemma_remap_zero_cuts_identity(s: Seq<u8>)
    ensures
        remapped(s, 0, 0) == s,
{
    assert forall|i: int| 0 <= i < s.len() implies remapped(s, 0, 0)[i] == s[i] by {
        let v = s[i] as int;
        assert((v * 255) / 255 == v) by (nonlinear_arith);
    }
    assert(remapped(s, 0, 0) =~= s);
}

/// Unsharp mask: blurs with `blur` and pushes each pixel away from its
/// blurred value by `amount_percent` percent of the difference.
pub fn unsharp_mask(p: &Plane, blur: &Kernel, amount_percent: u32) -> (r: Plane)
    requires
        p.wf(),
        blur.wf(),
    ensures
        r.wf(),
        r.width == p.width,
        r.height == p.height,
        r.data@ == sharpened(
            p.data@,
            convolved(p.width as int, p.height as int, p.data@, blur@),
            amount_percent,
        ),
{
    let blurred = convolve(p, blur);
    let n = p.data.len();
    let mut out: Vec<u8> = Vec::new();
    let mut i: usize = 0;
    while i < n
        invariant
            n == p.data@.len(),
            blurred.data@.len() == n,
            i <= n,
            out@.len() == i,
            forall|j: int|
                0 <= j < i ==> out@[j] == sharpen_value(p.data@[j], blurred.data@[j], amount_percent),
        decreases n - i,
    {
        let v = p.data[i] as i64;
        let b = blurred.data[i] as i64;
        let a = amount_percent as i64;
        assert(-1095216660225 <= a * (v - b) <= 1095216660225) by (nonlinear_arith)
            requires
                0 <= a <= 4294967295,
                -255 <= v - b <= 255,
        ;
        let num: i64 = 100 * v + a * (v - b);
        let s = if num < 0 {
            assert(num / 100 <= -1) by (nonlinear_arith)
                requires
                    num < 0,
            ;
            0u8
        } else {
            to_byte(num / 100)
        };
        out.push(s);
        i += 1;
    }
    assert(out@ =~= sharpened(p.data@, blurred.data@, amount_percent));
    Plane { width: p.width, height: p.height, data: out }
}

} // verus!
