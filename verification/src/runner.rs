use vstd::prelude::*;

use crate::grayscale::{grayscale_image, grayscale_manual, is_gray_of, luma_lib, luma_manual};
use crate::img::{GrayImg, RgbImg};
use crate::invert::{invert_builtin, invert_manual, invert_seq};
use crate::lee::{global_var_num, lee_filter, lee_pixel};
use crate::registry::Kernel;
use crate::rotate::{is_rotate90, rotate90};
use crate::sobel::{grad_mag, hsobel_at, sobel_gradient, vsobel_at};
use crate::stats::compute_stats;
use crate::stats::Stats;

verus! {

/// The image a benchmark run hands back: the last output the kernel
/// produced, in the kernel's own pixel format.
pub enum BenchOutput {
    Rgb(RgbImg),
    Gray(GrayImg),
}

#[verifier::external_type_specification]
#[verifier::external_body]
pub struct ExInstant(std::time::Instant);

/// Relies on `std::time::Instant::now`: an opaque monotonic timestamp.
/// Nothing is assumed of the value.
#[verifier::external_body]
fn instant_now() -> std::time::Instant {
    std::time::Instant::now()
}

/// Relies on `std::time::Instant::elapsed`: the wall-clock time since
/// `start`, converted to nanoseconds.  The value depends on the machine
/// and the moment, so nothing is assumed of it.
#[verifier::external_body]
fn elapsed_nanos(start: &std::time::Instant) -> u64 {
    start.elapsed().as_nanos() as u64
}

/// What the benchmark output must be for each kernel the library runs:
/// the last produced image is exactly one application of the kernel to
/// the input (or, for the kernels that start from a clone of the input,
/// the untouched clone when no iteration ran).
pub open spec fn run_output_ok(
    kernel: Kernel,
    rgb: RgbImg,
    gray: GrayImg,
    iterations: int,
    out: BenchOutput,
) -> bool {
    match kernel {
        Kernel::InvertBuiltin | Kernel::InvertManual => match out {
            BenchOutput::Rgb(o) => {
                &&& o.wf()
                &&& o.width == rgb.width
                &&& o.height == rgb.height
                &&& if iterations == 0 {
                    o.data@ == rgb.data@
                } else {
                    o.data@ == invert_seq(rgb.data@)
                }
            },
            _ => false,
        },
        Kernel::GrayscaleImage => match out {
            BenchOutput::Gray(o) => {
                &&& o.wf()
                &&& o.width == rgb.width
                &&& o.height == rgb.height
                &&& is_gray_of(o.data@, rgb.data@, |r0: u8, g0: u8, b0: u8| luma_lib(r0, g0, b0))
            },
            _ => false,
        },
        Kernel::GrayscaleManual => match out {
            BenchOutput::Gray(o) => {
                &&& o.wf()
                &&& o.width == rgb.width
                &&& o.height == rgb.height
                &&& is_gray_of(o.data@, rgb.data@, |r0: u8, g0: u8, b0: u8| luma_manual(r0, g0, b0))
            },
            _ => false,
        },
        Kernel::SobelGradient => match out {
            BenchOutput::Gray(o) => {
                &&& o.wf()
                &&& o.width == gray.width
                &&& o.height == gray.height
                &&& forall|x: int, y: int|
                    0 <= x < gray.width && 0 <= y < gray.height ==> #[trigger] o.at(x, y) as int
                        == grad_mag(
                        hsobel_at(gray.data@, gray.width as int, gray.height as int, x, y),
                        vsobel_at(gray.data@, gray.width as int, gray.height as int, x, y),
                    )
            },
            _ => false,
        },
        Kernel::Rotate90 => match out {
            BenchOutput::Rgb(o) => {
                if iterations == 0 {
                    o.same(rgb)
                } else {
                    is_rotate90(rgb, o)
                }
            },
            _ => false,
        },
        Kernel::LeeFilter => match out {
            BenchOutput::Gray(o) => {
                &&& o.wf()
                &&& o.width == gray.width
                &&& o.height == gray.height
                &&& global_var_num(gray.data@, gray.width as int, gray.height as int) == 0
                    ==> o.data@ == gray.data@
                &&& global_var_num(gray.data@, gray.width as int, gray.height as int) != 0
                    ==> forall|x: int, y: int|
                    0 <= x < gray.width && 0 <= y < gray.height ==> #[trigger] o.at(x, y) as int
                        == lee_pixel(gray.data@, gray.width as int, gray.height as int, x, y)
            },
            _ => false,
        },
        Kernel::BlurGaussian | Kernel::CannyDetect | Kernel::Rotate45Bilinear => false,
    }
}

/// The kernels whose arithmetic the library does not model (they need
/// floating point), so the caller must run them itself.
pub open spec fn needs_float(kernel: Kernel) -> bool {
    kernel == Kernel::BlurGaussian || kernel == Kernel::CannyDetect || kernel
        == Kernel::Rotate45Bilinear
}

/// Runs one benchmark entry: invokes the kernel exactly `iterations`
/// times on the color image `rgb` (or on its precomputed grayscale
/// `gray`, for the single-channel kernels), timing each invocation in
/// isolation -- a kernel that mutates its input runs on a fresh copy
/// each round, and the copy is made outside the timed region.  Returns
/// the per-iteration timings in order and the last produced output, or
/// `None` for a kernel the library cannot run.
pub fn run_benchmark(kernel: &Kernel, rgb: &RgbImg, gray: &GrayImg, iterations: usize) -> (r:
    Option<(Vec<u64>, BenchOutput)>)
    requires
        rgb.wf(),
        gray.wf(),
        gray.width * gray.height <= 0xffffffff,
    ensures
        r is None <==> needs_float(*kernel),
        match r {
            Option::Some(p) => p.0@.len() == iterations && run_output_ok(
                *kernel,
                *rgb,
                *gray,
                iterations as int,
                p.1,
            ),
            Option::None => true,
        },
{
    let mut times: Vec<u64> = Vec::new();
    match kernel {
        Kernel::InvertBuiltin => {
            let mut result = rgb.duplicate();
            let mut k: usize = 0;
            while k < iterations
                invariant
                    rgb.wf(),
                    k <= iterations,
                    times@.len() == k,
                    result.wf(),
                    result.width == rgb.width,
                    result.height == rgb.height,
                    k == 0 ==> result.data@ == rgb.data@,
                    k > 0 ==> result.data@ == invert_seq(rgb.data@),
                decreases iterations - k,
            {
                let mut work = rgb.duplicate();
                let t0 = instant_now();
                invert_builtin(&mut work);
                let dt = elapsed_nanos(&t0);
                times.push(dt);
                result = work;
                k = k + 1;
            }
            Some((times, BenchOutput::Rgb(result)))
        },
        Kernel::InvertManual => {
            let mut result = rgb.duplicate();
            let mut k: usize = 0;
            while k < iterations
                invariant
                    rgb.wf(),
                    k <= iterations,
                    times@.len() == k,
                    result.wf(),
                    result.width == rgb.width,
                    result.height == rgb.height,
                    k == 0 ==> result.data@ == rgb.data@,
                    k > 0 ==> result.data@ == invert_seq(rgb.data@),
                decreases iterations - k,
            {
                let mut work = rgb.duplicate();
                let t0 = instant_now();
                invert_manual(&mut work);
                let dt = elapsed_nanos(&t0);
                times.push(dt);
                result = work;
                k = k + 1;
            }
            Some((times, BenchOutput::Rgb(result)))
        },
        Kernel::GrayscaleImage => {
            let mut result = grayscale_image(rgb);
            let mut k: usize = 0;
            while k < iterations
                invariant
                    rgb.wf(),
                    k <= iterations,
                    times@.len() == k,
                    result.wf(),
                    result.width == rgb.width,
                    result.height == rgb.height,
                    is_gray_of(
                        result.data@,
                        rgb.data@,
                        |r0: u8, g0: u8, b0: u8| luma_lib(r0, g0, b0),
                    ),
                decreases iterations - k,
            {
                let t0 = instant_now();
                result = grayscale_image(rgb);
                let dt = elapsed_nanos(&t0);
                times.push(dt);
                k = k + 1;
            }
            Some((times, BenchOutput::Gray(result)))
        },
        Kernel::GrayscaleManual => {
            let mut result = grayscale_manual(rgb);
            let mut k: usize = 0;
            while k < iterations
                invariant
                    rgb.wf(),
                    k <= iterations,
                    times@.len() == k,
                    result.wf(),
                    result.width == rgb.width,
                    result.height == rgb.height,
                    is_gray_of(
                        result.data@,
                        rgb.data@,
                        |r0: u8, g0: u8, b0: u8| luma_manual(r0, g0, b0),
                    ),
                decreases iterations - k,
            {
                let t0 = instant_now();
                result = grayscale_manual(rgb);
                let dt = elapsed_nanos(&t0);
                times.push(dt);
                k = k + 1;
            }
            Some((times, BenchOutput::Gray(result)))
        },
        Kernel::SobelGradient => {
            let mut result = sobel_gradient(gray);
            let mut k: usize = 0;
            while k < iterations
                invariant
                    gray.wf(),
                    k <= iterations,
                    times@.len() == k,
                    result.wf(),
                    result.width == gray.width,
                    result.height == gray.height,
                    forall|x: int, y: int|
                        0 <= x < gray.width && 0 <= y < gray.height ==> #[trigger] result.at(
                            x,
                            y,
                        ) as int == grad_mag(
                            hsobel_at(gray.data@, gray.width as int, gray.height as int, x, y),
                            vsobel_at(gray.data@, gray.width as int, gray.height as int, x, y),
                        ),
                decreases iterations - k,
            {
                let t0 = instant_now();
                result = sobel_gradient(gray);
                let dt = elapsed_nanos(&t0);
                times.push(dt);
                k = k + 1;
            }
            Some((times, BenchOutput::Gray(result)))
        },
        Kernel::Rotate90 => {
            let mut result = rgb.duplicate();
            let mut k: usize = 0;
            while k < iterations
                invariant
                    rgb.wf(),
                    k <= iterations,
                    times@.len() == k,
                    k == 0 ==> result.same(*rgb),
                    k > 0 ==> is_rotate90(*rgb, result),
                decreases iterations - k,
            {
                let t0 = instant_now();
                result = rotate90(rgb);
                let dt = elapsed_nanos(&t0);
                times.push(dt);
                k = k + 1;
            }
            Some((times, BenchOutput::Rgb(result)))
        },
        Kernel::LeeFilter => {
            let mut result = lee_filter(gray);
            let mut k: usize = 0;
            while k < iterations
                invariant
                    gray.wf(),
                    gray.width * gray.height <= 0xffffffff,
                    k <= iterations,
                    times@.len() == k,
                    result.wf(),
                    result.width == gray.width,
                    result.height == gray.height,
                    global_var_num(gray.data@, gray.width as int, gray.height as int) == 0
                        ==> result.data@ == gray.data@,
                    global_var_num(gray.data@, gray.width as int, gray.height as int) != 0
                        ==> forall|x: int, y: int|
                        0 <= x < gray.width && 0 <= y < gray.height ==> #[trigger] result.at(
                            x,
                            y,
                        ) as int == lee_pixel(
                            gray.data@,
                            gray.width as int,
                            gray.height as int,
                            x,
                            y,
                        ),
                decreases iterations - k,
            {
                let t0 = instant_now();
                result = lee_filter(gray);
                let dt = elapsed_nanos(&t0);
                times.push(dt);
                k = k + 1;
            }
            Some((times, BenchOutput::Gray(result)))
        },
        Kernel::BlurGaussian => None,
        Kernel::CannyDetect => None,
        Kernel::Rotate45Bilinear => None,
    }
}

/// Runs one benchmark entry and reduces its timings: `run_benchmark`
/// followed by the statistics aggregation, with each sample capped so the
/// aggregation's exact 128-bit arithmetic applies.  `None` exactly for
/// the kernels the library cannot run.
pub fn run_and_aggregate(kernel: &Kernel, rgb: &RgbImg, gray: &GrayImg, iterations: usize) -> (r:
    Option<(Stats, BenchOutput)>)
    requires
        rgb.wf(),
        gray.wf(),
        gray.width * gray.height <= 0xffffffff,
        1 <= iterations <= 0xffffffff,
    ensures
        r is None <==> needs_float(*kernel),
        match r {
            Option::Some(p) => run_output_ok(*kernel, *rgb, *gray, iterations as int, p.1),
            Option::None => true,
        },
{
    match run_benchmark(kernel, rgb, gray, iterations) {
        Option::Some((times, out)) => {
            let mut capped: Vec<u64> = Vec::new();
            let n: usize = times.len();
            let mut i: usize = 0;
            while i < n
                invariant
                    n == times@.len(),
                    i <= n,
                    capped@.len() == i,
                    forall|j: int| 0 <= j < i ==> capped@[j] < 0x1000000000000,
                decreases n - i,
            {
                let t = times[i];
                let c: u64 = if t < 0xffffffffffff {
                    t
                } else {
                    0xffffffffffff
                };
                capped.push(c);
                i = i + 1;
            }
            let stats = compute_stats(&mut capped);
            Some((stats, out))
        },
        Option::None => None,
    }
}

} // verus!
