use one_last_image::convolve::convolve;
use one_last_image::kernel::{
    average_kernel, get_kernel, normalized_kernel, sobel_x_kernel, sobel_y_kernel, Quality,
};
use one_last_image::plane::Plane;

fn plane(width: u32, height: u32, data: Vec<u8>) -> Plane {
    Plane { width, height, data }
}

#[test]
fn average_kernel_has_unit_weights() {
    let k = average_kernel(7);
    assert_eq!(k.size, 7);
    assert_eq!(k.divisor, 49);
    assert_eq!(k.weights_row_major(), vec![1; 49]);
}

#[test]
fn quality_names_select_box_sizes() {
    assert_eq!(Quality::from_name("fine"), Quality::Fine);
    assert_eq!(Quality::from_name("coarse"), Quality::Coarse);
    assert_eq!(Quality::from_name("superCoarse"), Quality::SuperCoarse);
    assert_eq!(Quality::from_name("extraCoarse"), Quality::ExtraCoarse);
    assert_eq!(Quality::from_name("sketch"), Quality::Sketch);
    assert_eq!(Quality::from_name("normal"), Quality::Normal);
    assert_eq!(Quality::from_name("bogus"), Quality::Normal);
    let sizes: Vec<Option<usize>> = [
        Quality::Fine,
        Quality::Normal,
        Quality::Coarse,
        Quality::SuperCoarse,
        Quality::ExtraCoarse,
        Quality::Sketch,
    ]
    .iter()
    .map(|q| get_kernel(*q).map(|k| k.size))
    .collect();
    assert_eq!(sizes, vec![Some(5), Some(7), Some(9), Some(11), Some(13), None]);
}

#[test]
fn sobel_kernels_are_outer_products() {
    assert_eq!(sobel_x_kernel().weights_row_major(), vec![-1, 0, 1, -2, 0, 2, -1, 0, 1]);
    assert_eq!(sobel_y_kernel().weights_row_major(), vec![-1, -2, -1, 0, 0, 0, 1, 2, 1]);
    assert_eq!(sobel_x_kernel().divisor, 1);
}

#[test]
fn normalized_kernel_divides_by_weight_sum() {
    let k = normalized_kernel(3, vec![1, 2, 1, 2, 4, 2, 1, 2, 1]).unwrap();
    assert_eq!(k.divisor, 16);
    assert!(normalized_kernel(2, vec![1, 1, 1, 1]).is_none());
    assert!(normalized_kernel(3, vec![1, 1, 1]).is_none());
    assert!(normalized_kernel(3, vec![0; 9]).is_none());
    assert!(normalized_kernel(1, vec![70000]).is_none());
}

#[test]
fn convolve_uniform_plane_is_unchanged() {
    let p = plane(5, 4, vec![77; 20]);
    let r = convolve(&p, &average_kernel(7));
    assert_eq!(r.data, vec![77; 20]);
    let g = normalized_kernel(3, vec![1, 2, 1, 2, 4, 2, 1, 2, 1]).unwrap();
    assert_eq!(convolve(&p, &g).data, vec![77; 20]);
}

#[test]
fn convolve_replicates_borders() {
    // 3 x 1 plane [0, 30, 90] under a 3 x 3 box: borders repeat the edge pixel.
    let p = plane(3, 1, vec![0, 30, 90]);
    let r = convolve(&p, &average_kernel(3));
    // left: (0 + 0 + 30) * 3 / 9 = 10; middle: 120 * 3 / 9 = 40; right: 210 * 3 / 9 = 70.
    assert_eq!(r.data, vec![10, 40, 70]);
}

#[test]
fn convolve_saturates_to_bytes() {
    let p = plane(3, 1, vec![0, 200, 0]);
    let gx = convolve(&p, &sobel_x_kernel());
    // left edge: 4 * (200 - 0) = 800 -> 255; middle: 0; right: 4 * (0 - 200) -> 0.
    assert_eq!(gx.data, vec![255, 0, 0]);
}
