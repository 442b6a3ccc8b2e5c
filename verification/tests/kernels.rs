use imgbench::img::{GrayImg, RgbImg};
use imgbench::grayscale::{grayscale_image, grayscale_manual};
use imgbench::invert::{invert_builtin, invert_manual};
use imgbench::lee::lee_filter;
use imgbench::rotate::{rotate45_dims, rotate45_interior, rotate90};
use imgbench::sobel::sobel_gradient;

fn rgb(width: u32, height: u32, data: Vec<u8>) -> RgbImg {
    RgbImg::from_raw(width, height, data).expect("well-formed test image")
}

fn gray(width: u32, height: u32, data: Vec<u8>) -> GrayImg {
    GrayImg::from_raw(width, height, data).expect("well-formed test image")
}

#[test]
fn from_raw_rejects_a_mismatched_buffer() {
    assert!(RgbImg::from_raw(2, 2, vec![0; 11]).is_none());
    assert!(RgbImg::from_raw(2, 2, vec![0; 12]).is_some());
    assert!(GrayImg::from_raw(3, 2, vec![0; 5]).is_none());
    assert!(GrayImg::from_raw(3, 2, vec![0; 6]).is_some());
}

#[test]
fn invert_manual_inverts_every_channel() {
    let mut img = rgb(2, 1, vec![0, 1, 2, 253, 254, 255]);
    invert_manual(&mut img);
    assert_eq!(img.data, vec![255, 254, 253, 2, 1, 0]);
}

#[test]
fn invert_twice_restores_the_image() {
    let original = vec![13, 200, 7, 99, 0, 255, 17, 18, 19, 250, 1, 128];
    let mut img = rgb(2, 2, original.clone());
    invert_manual(&mut img);
    assert_ne!(img.data, original);
    invert_manual(&mut img);
    assert_eq!(img.data, original);
}

#[test]
fn invert_builtin_matches_manual() {
    let bytes = vec![13, 200, 7, 99, 0, 255];
    let mut a = rgb(2, 1, bytes.clone());
    let mut b = rgb(2, 1, bytes);
    invert_builtin(&mut a);
    invert_manual(&mut b);
    assert_eq!(a.data, b.data);
    assert_eq!(a.data, vec![242, 55, 248, 156, 255, 0]);
}

#[test]
fn grayscale_manual_uses_the_fixed_weights() {
    // floor((299 R + 587 G + 114 B) / 1000)
    let img = rgb(3, 1, vec![255, 0, 0, 0, 255, 0, 0, 0, 255]);
    let out = grayscale_manual(&img);
    assert_eq!(out.data, vec![76, 149, 29]);
}

#[test]
fn grayscale_image_uses_the_library_weights() {
    // floor((2126 R + 7152 G + 722 B) / 10000)
    let img = rgb(3, 1, vec![255, 0, 0, 0, 255, 0, 0, 0, 255]);
    let out = grayscale_image(&img);
    assert_eq!(out.data, vec![54, 182, 18]);
}

#[test]
fn grayscale_variants_agree_on_achromatic_pixels() {
    let img = rgb(4, 1, vec![0, 0, 0, 7, 7, 7, 128, 128, 128, 255, 255, 255]);
    let a = grayscale_manual(&img);
    let b = grayscale_image(&img);
    assert_eq!(a.data, b.data);
    assert_eq!(a.data, vec![0, 7, 128, 255]);
}

#[test]
fn rotate90_swaps_dimensions_and_maps_pixels() {
    // A 2x3 image with distinct pixels; clockwise rotation puts the
    // bottom-left pixel at the top-left.
    let img = rgb(
        2,
        3,
        vec![
            10, 11, 12, 20, 21, 22, //
            30, 31, 32, 40, 41, 42, //
            50, 51, 52, 60, 61, 62,
        ],
    );
    let out = rotate90(&img);
    assert_eq!(out.width(), 3);
    assert_eq!(out.height(), 2);
    // out(x, y) == in(y, h - 1 - x) with h == 3
    assert_eq!(
        out.data,
        vec![
            50, 51, 52, 30, 31, 32, 10, 11, 12, //
            60, 61, 62, 40, 41, 42, 20, 21, 22,
        ]
    );
}

#[test]
fn rotate90_four_times_is_identity() {
    let original = vec![
        1, 2, 3, 4, 5, 6, //
        7, 8, 9, 10, 11, 12,
    ];
    let img = rgb(2, 2, original.clone());
    let out = rotate90(&rotate90(&rotate90(&rotate90(&img))));
    assert_eq!(out.width(), 2);
    assert_eq!(out.height(), 2);
    assert_eq!(out.data, original);
}

#[test]
fn rotate45_dims_match_the_trigonometric_formula() {
    let angle = std::f64::consts::FRAC_PI_4;
    for &(w, h) in &[(1u32, 1u32), (4, 4), (7, 3), (100, 50), (640, 480), (1, 1000)] {
        let (nw, nh) = rotate45_dims(w, h);
        let expect_w = ((w as f64) * angle.cos() + (h as f64) * angle.sin()).ceil() as u32;
        let expect_h = ((w as f64) * angle.sin() + (h as f64) * angle.cos()).ceil() as u32;
        assert_eq!(nw, expect_w);
        assert_eq!(nh, expect_h);
    }
}

#[test]
fn rotate45_interior_matches_the_real_condition() {
    let angle = std::f64::consts::FRAC_PI_4;
    let cos_a = angle.cos();
    let sin_a = angle.sin();
    for &(w, h) in &[(4u32, 4u32), (7, 3), (16, 9)] {
        let (nw, nh) = rotate45_dims(w, h);
        for oy in 0..nh {
            for ox in 0..nw {
                let dx = ox as f64 - nw as f64 / 2.0;
                let dy = oy as f64 - nh as f64 / 2.0;
                let sx = dx * cos_a + dy * sin_a + w as f64 / 2.0;
                let sy = -dx * sin_a + dy * cos_a + h as f64 / 2.0;
                let by_floats = sx >= 0.0 && sx < w as f64 - 1.0 && sy >= 0.0 && sy < h as f64 - 1.0;
                assert_eq!(
                    rotate45_interior(ox, oy, w, h, nw, nh),
                    by_floats,
                    "disagreement at ({}, {}) of {}x{}",
                    ox,
                    oy,
                    w,
                    h
                );
            }
        }
    }
}

#[test]
fn sobel_on_a_flat_white_image_is_zero() {
    let img = gray(4, 4, vec![255; 16]);
    let out = sobel_gradient(&img);
    assert_eq!(out.width(), 4);
    assert_eq!(out.height(), 4);
    assert_eq!(out.data, vec![0; 16]);
}

#[test]
fn sobel_detects_a_vertical_boundary() {
    let mut data = Vec::new();
    for _ in 0..4 {
        data.extend_from_slice(&[0, 0, 255, 255]);
    }
    let img = gray(4, 4, data);
    let out = sobel_gradient(&img);
    // At the interior columns next to the step the horizontal response is
    // saturated: min(255, sqrt(1020^2)) == 255.
    assert_eq!(out.get(1, 1), 255);
    assert_eq!(out.get(2, 1), 255);
    assert_eq!(out.get(1, 2), 255);
    // Flat interior far from the step would be zero on a wider image; on
    // this 4x4 every interior pixel touches the step.
    assert!(out.data.iter().any(|&v| v > 0));
}

#[test]
fn lee_filter_keeps_a_constant_image() {
    let img = gray(5, 4, vec![137; 20]);
    let out = lee_filter(&img);
    assert_eq!(out.width(), 5);
    assert_eq!(out.height(), 4);
    assert_eq!(out.data, vec![137; 20]);
}

#[test]
fn lee_filter_blends_toward_the_local_mean() {
    // Two pixels, 0 and 255.  Global and local variances coincide, so the
    // weight is 1/2 and each pixel moves halfway toward the mean 127.5:
    // round(63.75) == 64 and round(191.25) == 191.
    let img = gray(2, 1, vec![0, 255]);
    let out = lee_filter(&img);
    assert_eq!(out.data, vec![64, 191]);
}

#[test]
fn lee_filter_on_an_empty_image() {
    let img = gray(0, 0, Vec::new());
    let out = lee_filter(&img);
    assert_eq!(out.width(), 0);
    assert_eq!(out.height(), 0);
    assert_eq!(out.data, Vec::<u8>::new());
}
