use vstd::prelude::*;

use crate::arith::{floor_sqrt, isqrt, lemma_floor_sqrt_unique};
use crate::img::GrayImg;

verus! {

/// A coordinate clamped to the interval `[0, hi]`.
pub open spec fn clampc(v: int, hi: int) -> int {
    if v < 0 {
        0
    } else if v > hi {
        hi
    } else {
        v
    }
}

/// The luminance sampled at `(x, y)` with coordinates clamped to the
/// image, the border policy of the convolution ("pads by continuity").
pub open spec fn gpx(d: Seq<u8>, w: int, h: int, x: int, y: int) -> int {
    d[clampc(y, h - 1) * w + clampc(x, w - 1)] as int
}

/// The horizontal Sobel response at `(x, y)`: correlation with the kernel
/// rows (-1 0 1 / -2 0 2 / -1 0 1), borders clamped.
pub open spec fn hsobel_at(d: Seq<u8>, w: int, h: int, x: int, y: int) -> int {
    -1 * gpx(d, w, h, x - 1, y - 1) + gpx(d, w, h, x + 1, y - 1) + -2 * gpx(d, w, h, x - 1, y) + 2
        * gpx(d, w, h, x + 1, y) + -1 * gpx(d, w, h, x - 1, y + 1) + gpx(d, w, h, x + 1, y + 1)
}

/// The vertical Sobel response at `(x, y)`: correlation with the kernel
/// rows (-1 -2 -1 / 0 0 0 / 1 2 1), borders clamped.
pub open spec fn vsobel_at(d: Seq<u8>, w: int, h: int, x: int, y: int) -> int {
    -1 * gpx(d, w, h, x - 1, y - 1) + -2 * gpx(d, w, h, x, y - 1) + -1 * gpx(d, w, h, x + 1, y - 1)
        + gpx(d, w, h, x - 1, y + 1) + 2 * gpx(d, w, h, x, y + 1) + gpx(d, w, h, x + 1, y + 1)
}

/// The gradient magnitude, truncated to one byte:
/// min(255, floor(sqrt(gx^2 + gy^2))).
pub open spec fn grad_mag(gx: int, gy: int) -> int {
    let m = floor_sqrt(gx * gx + gy * gy);
    if m > 255 {
        255
    } else {
        m
    }
}

/// Both Sobel responses lie in [-1020, 1020].
pub proof fn lemma_sobel_bounds(d: Seq<u8>, w: int, h: int, x: int, y: int)
    requires
        d.len() == w * h,
        0 <= x < w,
        0 <= y < h,
    ensures
        -1020 <= hsobel_at(d, w, h, x, y) <= 1020,
        -1020 <= vsobel_at(d, w, h, x, y) <= 1020,
{
    assert forall|xx: int, yy: int| x - 1 <= xx <= x + 1 && y - 1 <= yy <= y + 1 implies 0 <= #[trigger] gpx(
        d,
        w,
        h,
        xx,
        yy,
    ) <= 255 by {
        crate::img::lemma_gray_index_bound(w, h, clampc(xx, w - 1), clampc(yy, h - 1));
    }
}

/// Relies on `imageproc::gradients::horizontal_sobel`:
/// `filter_clamped` correlation with the kernel (-1 0 1 / -2 0 2 / -1 0 1),
/// coordinates clamped at the borders, accumulated in `i32` and clamped to
/// `i16` (a no-op: the response never leaves [-1020, 1020]).
#[verifier::external_body]
fn lib_horizontal_sobel(width: u32, height: u32, data: &Vec<u8>) -> (r: Vec<i16>)
    requires
        data@.len() == width * height,
    ensures
        r@.len() == data@.len(),
        forall|x: int, y: int|
            0 <= x < width && 0 <= y < height ==> #[trigger] r@[y * width + x] as int == hsobel_at(
                data@,
                width as int,
                height as int,
                x,
                y,
            ),
{
    let buf = image::GrayImage::from_raw(width, height, data.clone())
        .expect("buffer length matches the dimensions");
    imageproc::gradients::horizontal_sobel(&buf).into_raw()
}

/// Relies on `imageproc::gradients::vertical_sobel`: the same correlation
/// with the transposed kernel (-1 -2 -1 / 0 0 0 / 1 2 1).
#[verifier::external_body]
fn lib_vertical_sobel(width: u32, height: u32, data: &Vec<u8>) -> (r: Vec<i16>)
    requires
        data@.len() == width * height,
    ensures
        r@.len() == data@.len(),
        forall|x: int, y: int|
            0 <= x < width && 0 <= y < height ==> #[trigger] r@[y * width + x] as int == vsobel_at(
                data@,
                width as int,
                height as int,
                x,
                y,
            ),
{
    let buf = image::GrayImage::from_raw(width, height, data.clone())
        .expect("buffer length matches the dimensions");
    imageproc::gradients::vertical_sobel(&buf).into_raw()
}

/// Sobel gradient magnitude of a luminance image: horizontal and vertical
/// responses from the standard 3x3 operators, then per pixel
/// min(255, floor(sqrt(gx^2 + gy^2))).
pub fn sobel_gradient(img: &GrayImg) -> (out: GrayImg)
    requires
        img.wf(),
    ensures
        out.wf(),
        out.width == img.width,
        out.height == img.height,
        forall|x: int, y: int|
            0 <= x < img.width && 0 <= y < img.height ==> #[trigger] out.at(x, y) as int
                == grad_mag(
                hsobel_at(img.data@, img.width as int, img.height as int, x, y),
                vsobel_at(img.data@, img.width as int, img.height as int, x, y),
            ),
{
    let gx = lib_horizontal_sobel(img.width, img.height, &img.data);
    let gy = lib_vertical_sobel(img.width, img.height, &img.data);
    let n: usize = img.data.len();
    let w = img.width;
    let h = img.height;
    let mut data: Vec<u8> = Vec::new();
    let mut y: u32 = 0;
    while y < h
        invariant
            img.wf(),
            w == img.width,
            h == img.height,
            n == img.data@.len(),
            n == (w as int) * (h as int),
            gx@.len() == n,
            gy@.len() == n,
            forall|xx: int, yy: int|
                0 <= xx < w && 0 <= yy < h ==> #[trigger] gx@[yy * w + xx] as int == hsobel_at(
                    img.data@,
                    w as int,
                    h as int,
                    xx,
                    yy,
                ),
            forall|xx: int, yy: int|
                0 <= xx < w && 0 <= yy < h ==> #[trigger] gy@[yy * w + xx] as int == vsobel_at(
                    img.data@,
                    w as int,
                    h as int,
                    xx,
                    yy,
                ),
            y <= h,
            data@.len() == y * w,
            forall|xx: int, yy: int|
                0 <= xx < w && 0 <= yy < y ==> #[trigger] data@[yy * w + xx] as int == grad_mag(
                    hsobel_at(img.data@, w as int, h as int, xx, yy),
                    vsobel_at(img.data@, w as int, h as int, xx, yy),
                ),
        decreases h - y,
    {
        let mut x: u32 = 0;
        while x < w
            invariant
                img.wf(),
                w == img.width,
                h == img.height,
                n == img.data@.len(),
                n == (w as int) * (h as int),
                gx@.len() == n,
                gy@.len() == n,
                forall|xx: int, yy: int|
                    0 <= xx < w && 0 <= yy < h ==> #[trigger] gx@[yy * w + xx] as int == hsobel_at(
                        img.data@,
                        w as int,
                        h as int,
                        xx,
                        yy,
                    ),
                forall|xx: int, yy: int|
                    0 <= xx < w && 0 <= yy < h ==> #[trigger] gy@[yy * w + xx] as int == vsobel_at(
                        img.data@,
                        w as int,
                        h as int,
                        xx,
                        yy,
                    ),
                y < h,
                x <= w,
                data@.len() == y * w + x,
                forall|xx: int, yy: int|
                    0 <= xx < w && 0 <= yy < y ==> #[trigger] data@[yy * w + xx] as int
                        == grad_mag(
                        hsobel_at(img.data@, w as int, h as int, xx, yy),
                        vsobel_at(img.data@, w as int, h as int, xx, yy),
                    ),
                forall|xx: int|
                    0 <= xx < x ==> #[trigger] data@[y * w + xx] as int == grad_mag(
                        hsobel_at(img.data@, w as int, h as int, xx, y as int),
                        vsobel_at(img.data@, w as int, h as int, xx, y as int),
                    ),
            decreases w - x,
        {
            proof {
                crate::img::lemma_gray_index_bound(w as int, h as int, x as int, y as int);
                lemma_sobel_bounds(img.data@, w as int, h as int, x as int, y as int);
            }
            let idx: usize = (y as usize) * (w as usize) + (x as usize);
            proof {
                assert(gx@[(y as int) * (w as int) + (x as int)] as int == hsobel_at(
                    img.data@,
                    w as int,
                    h as int,
                    x as int,
                    y as int,
                ));
                assert(gy@[(y as int) * (w as int) + (x as int)] as int == vsobel_at(
                    img.data@,
                    w as int,
                    h as int,
                    x as int,
                    y as int,
                ));
            }
            let a: i64 = gx[idx] as i64;
            let b: i64 = gy[idx] as i64;
            proof {
                assert(0 <= (a as int) * (a as int) <= 1040400 && 0 <= (b as int) * (b as int)
                    <= 1040400) by (nonlinear_arith)
                    requires
                        -1020 <= a <= 1020,
                        -1020 <= b <= 1020,
                ;
            }
            let m: u64 = (a * a + b * b) as u64;
            let s: u64 = isqrt(m as u128);
            let v: u8 = if s > 255 {
                255
            } else {
                s as u8
            };
            proof {
                crate::arith::lemma_floor_sqrt_exists(m as int);
                lemma_floor_sqrt_unique(
                    m as int,
                    s as int,
                    floor_sqrt(m as int),
                );
            }
            data.push(v);
            x = x + 1;
            proof {
                assert(data@.len() == y * w + x);
                assert forall|xx: int, yy: int| 0 <= xx < w && 0 <= yy < y implies #[trigger] (yy * w + xx) < (
                y as int) * (w as int) by {
                    assert(yy * w + xx < y * (w as int)) by (nonlinear_arith)
                        requires
                            0 <= xx < w,
                            0 <= yy,
                            yy < y,
                    ;
                }
            }
        }
        y = y + 1;
        proof {
            assert((y - 1) * w + w == y * w) by (nonlinear_arith);
        }
    }
    proof {
        assert(data@.len() == (h as int) * (w as int));
        assert((h as int) * (w as int) == (w as int) * (h as int)) by (nonlinear_arith);
    }
    GrayImg { width: w, height: h, data }
}

/// On a flat image (every pixel the same value) both Sobel responses are
/// zero everywhere, border rows included, so the gradient magnitude image
/// is identically zero.
pub proof fn lemma_sobel_flat(d: Seq<u8>, w: int, h: int, v: u8, x: int, y: int)
    requires
        d.len() == w * h,
        forall|p: int| 0 <= p < d.len() ==> d[p] == v,
        0 <= x < w,
        0 <= y < h,
    ensures
        hsobel_at(d, w, h, x, y) == 0,
        vsobel_at(d, w, h, x, y) == 0,
        grad_mag(hsobel_at(d, w, h, x, y), vsobel_at(d, w, h, x, y)) == 0,
{
    assert forall|xx: int, yy: int| x - 1 <= xx <= x + 1 && y - 1 <= yy <= y + 1 implies #[trigger] gpx(
        d,
        w,
        h,
        xx,
        yy,
    ) == v as int by {
        crate::img::lemma_gray_index_bound(w, h, clampc(xx, w - 1), clampc(yy, h - 1));
    }
    crate::arith::lemma_floor_sqrt_exists(0);
    lemma_floor_sqrt_unique(0, 0, floor_sqrt(0));
}

} // verus!
