use imgbench::img::{GrayImg, RgbImg};
use imgbench::registry::{filter_by_task, registry, Kernel};
use imgbench::runner::{run_and_aggregate, run_benchmark, BenchOutput};
use imgbench::stats::compute_stats;

fn rgb(width: u32, height: u32, data: Vec<u8>) -> RgbImg {
    RgbImg::from_raw(width, height, data).expect("well-formed test image")
}

fn gray(width: u32, height: u32, data: Vec<u8>) -> GrayImg {
    GrayImg::from_raw(width, height, data).expect("well-formed test image")
}

#[test]
fn stats_of_three_samples() {
    let mut times: Vec<u64> = vec![3, 1, 2];
    let s = compute_stats(&mut times);
    assert_eq!(times, vec![1, 2, 3]);
    assert_eq!(s.total, 6);
    assert_eq!(s.mean, 2);
    assert_eq!(s.median, 2);
    assert_eq!(s.min, 1);
    assert_eq!(s.max, 3);
    // sample variance ((1-2)^2 + 0 + (3-2)^2) / 2 == 1
    assert_eq!(s.std_dev, 1);
}

#[test]
fn stats_of_one_sample_has_zero_deviation() {
    let mut times: Vec<u64> = vec![5];
    let s = compute_stats(&mut times);
    assert_eq!(s.total, 5);
    assert_eq!(s.mean, 5);
    assert_eq!(s.median, 5);
    assert_eq!(s.min, 5);
    assert_eq!(s.max, 5);
    assert_eq!(s.std_dev, 0);
}

#[test]
fn stats_median_is_the_upper_middle_for_even_lengths() {
    let mut times: Vec<u64> = vec![4, 1, 3, 2];
    let s = compute_stats(&mut times);
    assert_eq!(times, vec![1, 2, 3, 4]);
    // index 4 / 2 == 2 of the sorted sequence, not the average of 2 and 3
    assert_eq!(s.median, 3);
    assert_eq!(s.total, 10);
    assert_eq!(s.mean, 2);
}

#[test]
fn registry_lists_the_ten_entries_in_order() {
    let defs = registry();
    let expected: Vec<(&str, &str)> = vec![
        ("invert", "image-invert"),
        ("invert", "rust-manual-invert"),
        ("grayscale", "image-grayscale"),
        ("grayscale", "rust-manual-grayscale"),
        ("blur", "imageproc-blur"),
        ("edge_detect_sobel", "imageproc-sobel"),
        ("edge_detect_canny", "imageproc-canny"),
        ("rotate_90", "image-rotate90"),
        ("rotate_arbitrary", "rust-rotate45"),
        ("lee_filter", "rust-manual-lee"),
    ];
    assert_eq!(defs.len(), expected.len());
    for (def, (task, slug)) in defs.iter().zip(expected.iter()) {
        assert_eq!(def.task.as_str(), *task);
        assert_eq!(def.slug.as_str(), *slug);
    }
}

#[test]
fn task_filter_selects_exactly_the_matching_entries_in_order() {
    let defs = registry();
    let filter = String::from("invert");
    let picked = filter_by_task(&defs, Some(&filter));
    assert_eq!(picked.len(), 2);
    assert_eq!(picked[0].slug.as_str(), "image-invert");
    assert_eq!(picked[1].slug.as_str(), "rust-manual-invert");
    assert!(picked.iter().all(|d| d.task.as_str() == "invert"));
}

#[test]
fn task_filter_without_a_match_is_empty() {
    let defs = registry();
    let filter = String::from("Invert");
    let picked = filter_by_task(&defs, Some(&filter));
    assert!(picked.is_empty());
}

#[test]
fn no_task_filter_keeps_every_entry() {
    let defs = registry();
    let picked = filter_by_task(&defs, None);
    assert_eq!(picked.len(), defs.len());
    for (a, b) in picked.iter().zip(defs.iter()) {
        assert_eq!(a.slug, b.slug);
    }
}

#[test]
fn run_benchmark_times_each_iteration_and_keeps_the_last_output() {
    let color = rgb(2, 1, vec![10, 20, 30, 40, 50, 60]);
    let lum = gray(2, 1, vec![100, 200]);
    let r = run_benchmark(&Kernel::InvertManual, &color, &lum, 3).expect("library kernel");
    assert_eq!(r.0.len(), 3);
    match r.1 {
        BenchOutput::Rgb(out) => assert_eq!(out.data, vec![245, 235, 225, 215, 205, 195]),
        BenchOutput::Gray(_) => panic!("invert returns a color image"),
    }
}

#[test]
fn run_benchmark_with_zero_iterations_keeps_the_input_copy() {
    let color = rgb(1, 1, vec![9, 8, 7]);
    let lum = gray(1, 1, vec![5]);
    let r = run_benchmark(&Kernel::Rotate90, &color, &lum, 0).expect("library kernel");
    assert_eq!(r.0.len(), 0);
    match r.1 {
        BenchOutput::Rgb(out) => assert_eq!(out.data, vec![9, 8, 7]),
        BenchOutput::Gray(_) => panic!("rotation returns a color image"),
    }
}

#[test]
fn run_benchmark_declines_the_floating_point_kernels() {
    let color = rgb(1, 1, vec![1, 2, 3]);
    let lum = gray(1, 1, vec![2]);
    assert!(run_benchmark(&Kernel::BlurGaussian, &color, &lum, 1).is_none());
    assert!(run_benchmark(&Kernel::CannyDetect, &color, &lum, 1).is_none());
    assert!(run_benchmark(&Kernel::Rotate45Bilinear, &color, &lum, 1).is_none());
}

#[test]
fn run_and_aggregate_returns_stats_for_library_kernels() {
    let color = rgb(2, 2, vec![0; 12]);
    let lum = gray(2, 2, vec![1, 2, 3, 4]);
    let r = run_and_aggregate(&Kernel::GrayscaleManual, &color, &lum, 5).expect("library kernel");
    match r.1 {
        BenchOutput::Gray(out) => assert_eq!(out.data, vec![0; 4]),
        BenchOutput::Rgb(_) => panic!("grayscale returns a luminance image"),
    }
    assert!(r.0.min <= r.0.median && r.0.median <= r.0.max);
}
