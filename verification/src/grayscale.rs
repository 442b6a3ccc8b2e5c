use vstd::prelude::*;

use crate::img::{GrayImg, RgbImg};

verus! {

/// The hand-written luminance formula: floor(0.299 R + 0.587 G + 0.114 B),
/// written over integers as floor((299 R + 587 G + 114 B) / 1000).
pub open spec fn luma_manual(r: u8, g: u8, b: u8) -> u8 {
    ((299 * r + 587 * g + 114 * b) / 1000) as u8
}

/// The image library's luminance formula:
/// floor((2126 R + 7152 G + 722 B) / 10000).
pub open spec fn luma_lib(r: u8, g: u8, b: u8) -> u8 {
    ((2126 * r + 7152 * g + 722 * b) / 10000) as u8
}

/// The output buffer `out` is the grayscale of the interleaved color
/// buffer `s` under the per-pixel formula `luma`, pixel for pixel.
pub open spec fn is_gray_of(out: Seq<u8>, s: Seq<u8>, luma: spec_fn(u8, u8, u8) -> u8) -> bool {
    &&& 3 * out.len() == s.len()
    &&& forall|p: int|
        0 <= p < out.len() ==> out[p] == luma(s[3 * p], s[3 * p + 1], s[3 * p + 2])
}

/// On an achromatic pixel (equal red, green and blue) the two luminance
/// formulas agree: both reduce to the common channel value.
pub proof fn lemma_luma_agree_on_gray(v: u8)
    ensures
        luma_manual(v, v, v) == v,
        luma_lib(v, v, v) == v,
{
    assert((299 * v + 587 * v + 114 * v) == 1000 * v);
    assert(1000 * (v as int) / 1000 == v) by (nonlinear_arith);
    assert((2126 * v + 7152 * v + 722 * v) == 10000 * v);
    assert(10000 * (v as int) / 10000 == v) by (nonlinear_arith);
}

/// On an image whose every pixel is achromatic, the hand-written and the
/// library grayscale conversions agree pixel for pixel.
pub proof fn lemma_grayscale_agree_on_gray_image(out1: Seq<u8>, out2: Seq<u8>, s: Seq<u8>)
    requires
        is_gray_of(out1, s, |r: u8, g: u8, b: u8| luma_manual(r, g, b)),
        is_gray_of(out2, s, |r: u8, g: u8, b: u8| luma_lib(r, g, b)),
        forall|p: int|
            0 <= p < s.len() / 3 ==> #[trigger] s[3 * p] == s[3 * p + 1] && s[3 * p + 1] == s[3 * p
                + 2],
    ensures
        out1 == out2,
{
    assert forall|p: int| 0 <= p < out1.len() implies out1[p] == out2[p] by {
        lemma_luma_agree_on_gray(s[3 * p]);
    }
    assert(out1 =~= out2);
}

/// Grayscale conversion via the hand-written pixel loop.
pub fn grayscale_manual(img: &RgbImg) -> (out: GrayImg)
    requires
        img.wf(),
    ensures
        out.wf(),
        out.width == img.width,
        out.height == img.height,
        is_gray_of(out.data@, img.data@, |r: u8, g: u8, b: u8| luma_manual(r, g, b)),
{
    let total: usize = img.data.len();
    let n: usize = total / 3;
    proof {
        crate::img::lemma_triple_size(img.width as int, img.height as int);
        assert((3 * ((img.width as int) * (img.height as int))) / 3 == (img.width as int) * (
        img.height as int)) by (nonlinear_arith);
        assert(n == (img.width as int) * (img.height as int));
    }
    let mut data: Vec<u8> = Vec::new();
    let mut p: usize = 0;
    while p < n
        invariant
            img.wf(),
            n == (img.width as int) * (img.height as int),
            3 * n == img.data@.len(),
            img.data@.len() <= usize::MAX,
            p <= n,
            data@.len() == p,
            forall|q: int|
                0 <= q < p ==> data@[q] == luma_manual(
                    img.data@[3 * q],
                    img.data@[3 * q + 1],
                    img.data@[3 * q + 2],
                ),
        decreases n - p,
    {
        let r = img.data[3 * p] as u32;
        let g = img.data[3 * p + 1] as u32;
        let b = img.data[3 * p + 2] as u32;
        let v = ((299 * r + 587 * g + 114 * b) / 1000) as u8;
        data.push(v);
        p = p + 1;
    }
    GrayImg { width: img.width, height: img.height, data }
}

/// Relies on `image::imageops::grayscale`, which converts each `Rgb<u8>`
/// pixel to luminance by `rgb_to_luma`: floor((2126 R + 7152 G + 722 B) /
/// 10000), computed in integers and clamped to `u8` (a no-op, as the
/// weights sum to 10000).
#[verifier::external_body]
fn lib_grayscale_raw(width: u32, height: u32, data: &Vec<u8>) -> (r: Vec<u8>)
    requires
        data@.len() == 3 * width * height,
    ensures
        is_gray_of(r@, data@, |r0: u8, g0: u8, b0: u8| luma_lib(r0, g0, b0)),
        r@.len() == (width as int) * (height as int),
{
    let buf = image::RgbImage::from_raw(width, height, data.clone())
        .expect("buffer length matches the dimensions");
    image::imageops::grayscale(&buf).into_raw()
}

/// Grayscale conversion via the image library's routine.
pub fn grayscale_image(img: &RgbImg) -> (out: GrayImg)
    requires
        img.wf(),
    ensures
        out.wf(),
        out.width == img.width,
        out.height == img.height,
        is_gray_of(out.data@, img.data@, |r: u8, g: u8, b: u8| luma_lib(r, g, b)),
{
    let data = lib_grayscale_raw(img.width, img.height, &img.data);
    GrayImg { width: img.width, height: img.height, data }
}

} // verus!
