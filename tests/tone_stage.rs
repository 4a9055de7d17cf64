use one_last_image::kernel::average_kernel;
use one_last_image::plane::Plane;
use one_last_image::smaa::{
    edge_magnitude, isqrt_byte, smaa_antialiasing, smaa_blend_weights, smaa_edge_detection,
};
use one_last_image::tone::{contrast_remap, high_pass, unsharp_mask};

fn plane(width: u32, height: u32, data: Vec<u8>) -> Plane {
    Plane { width, height, data }
}

#[test]
fn high_pass_centres_on_mid_gray() {
    let a = plane(4, 1, vec![100, 0, 255, 10]);
    let b = plane(4, 1, vec![100, 200, 0, 10]);
    assert_eq!(high_pass(&a, &b).data, vec![128, 0, 255, 128]);
}

#[test]
fn contrast_remap_zero_cuts_is_identity() {
    let data: Vec<u8> = (0..=255).collect();
    let p = plane(16, 16, data.clone());
    assert_eq!(contrast_remap(&p, 0, 0).data, data);
}

#[test]
fn contrast_remap_default_cuts() {
    let p = plane(5, 1, vec![0, 118, 120, 126, 127]);
    // scale 255 / 9: (120 - 118) * 255 / 9 = 56, (126 - 118) * 255 / 9 = 226.
    assert_eq!(contrast_remap(&p, 128, 118).data, vec![0, 0, 56, 226, 255]);
}

#[test]
fn contrast_remap_divisor_never_below_one() {
    let p = plane(3, 1, vec![99, 100, 101]);
    assert_eq!(contrast_remap(&p, 200, 100).data, vec![0, 0, 255]);
}

#[test]
fn unsharp_mask_pushes_away_from_blur() {
    let p = plane(3, 1, vec![0, 90, 0]);
    // box blur: [30, 30, 30]; sharpened: 2 v - blur.
    let r = unsharp_mask(&p, &average_kernel(3), 100);
    assert_eq!(r.data, vec![0, 150, 0]);
    let half = unsharp_mask(&p, &average_kernel(3), 50);
    assert_eq!(half.data, vec![0, 120, 0]);
}

#[test]
fn integer_square_root_saturates() {
    assert_eq!(isqrt_byte(0), 0);
    assert_eq!(isqrt_byte(15), 3);
    assert_eq!(isqrt_byte(16), 4);
    assert_eq!(isqrt_byte(65024), 254);
    assert_eq!(isqrt_byte(65025), 255);
    assert_eq!(isqrt_byte(1_000_000), 255);
}

#[test]
fn edge_magnitude_of_a_ramp() {
    // Columns 0, 16, 32, 48: gx = 4 * (right - left) with replicated borders.
    let row = vec![0u8, 16, 32, 48];
    let mut data = Vec::new();
    for _ in 0..3 {
        data.extend_from_slice(&row);
    }
    let r = edge_magnitude(&plane(4, 3, data));
    assert_eq!(r.data, vec![64, 128, 128, 64, 64, 128, 128, 64, 64, 128, 128, 64]);
}

#[test]
fn smaa_leaves_flat_plane_unchanged() {
    let p = plane(6, 5, vec![90; 30]);
    assert!(smaa_edge_detection(&p).iter().all(|e| *e == 0));
    assert_eq!(smaa_antialiasing(&p).data, vec![90; 30]);
}

#[test]
fn smaa_blend_weights_on_strong_block() {
    let e = vec![401u32; 9];
    let w = smaa_blend_weights(&e, 3, 3);
    // centre: (4096 + 4 * 2048 + 4 * 1697) / 9 = 2119; border pixels get none.
    assert_eq!(w, vec![0, 0, 0, 0, 2119, 0, 0, 0, 0]);
}

#[test]
fn smaa_softens_an_isolated_dot() {
    let mut data = vec![0u8; 25];
    data[12] = 255;
    let r = smaa_antialiasing(&plane(5, 5, data));
    // The dot itself has no gradient; its strong neighbours blend towards it.
    assert_eq!(r.data[12], 255);
    assert!(r.data[11] > 0);
    assert_eq!(r.data[0], 0);
}

#[test]
fn smaa_edges_use_saturated_responses() {
    // A falling ramp has negative Sobel responses, which saturate to zero.
    let falling = plane(3, 3, vec![30, 20, 10, 30, 20, 10, 30, 20, 10]);
    assert_eq!(smaa_edge_detection(&falling), vec![0; 9]);
    // The rising ramp: 4 * 20 = 80 in the middle, 4 * 10 = 40 at the borders.
    let rising = plane(3, 3, vec![10, 20, 30, 10, 20, 30, 10, 20, 30]);
    assert_eq!(smaa_edge_detection(&rising), vec![1600, 6400, 1600, 1600, 6400, 1600, 1600, 6400, 1600]);
    assert_eq!(smaa_antialiasing(&falling).data, falling.data);
}
