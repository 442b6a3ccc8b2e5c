use vstd::prelude::*;

use crate::img::RgbImg;

verus! {

/// `b` is `a` rotated 90 degrees clockwise: dimensions swap, and the pixel
/// at column `x`, row `y` of `b` is the pixel of `a` at column `y`, row
/// `height - 1 - x`.
pub open spec fn is_rotate90(a: RgbImg, b: RgbImg) -> bool {
    &&& b.wf()
    &&& b.width == a.height
    &&& b.height == a.width
    &&& forall|x: int, y: int, c: int|
        0 <= x < b.width && 0 <= y < b.height && 0 <= c < 3 ==> #[trigger] b.at(x, y, c) == a.at(
            y,
            a.height - 1 - x,
            c,
        )
}

/// Relies on `image::imageops::rotate90` (via `rotate90_in`), which writes
/// the source pixel `(x, y)` to destination `(height - 1 - y, x)` on a
/// destination buffer of swapped dimensions.
#[verifier::external_body]
fn lib_rotate90_raw(width: u32, height: u32, data: &Vec<u8>) -> (r: Vec<u8>)
    requires
        data@.len() == 3 * width * height,
    ensures
        r@.len() == 3 * height * width,
        forall|x: int, y: int, c: int|
            0 <= x < height && 0 <= y < width && 0 <= c < 3 ==> #[trigger] r@[3 * (y * height + x)
                + c] == data@[3 * ((height - 1 - x) * width + y) + c],
{
    let buf = image::RgbImage::from_raw(width, height, data.clone())
        .expect("buffer length matches the dimensions");
    image::imageops::rotate90(&buf).into_raw()
}

/// Rotation by exactly 90 degrees clockwise; output dimensions are the
/// input's swapped, every input pixel maps to exactly one output pixel.
pub fn rotate90(img: &RgbImg) -> (out: RgbImg)
    requires
        img.wf(),
    ensures
        is_rotate90(*img, out),
{
    let data = lib_rotate90_raw(img.width, img.height, &img.data);
    let out = RgbImg { width: img.height, height: img.width, data };
    proof {
        crate::img::lemma_triple_size(img.width as int, img.height as int);
        crate::img::lemma_triple_size(img.height as int, img.width as int);
        assert((img.height as int) * (img.width as int) == (img.width as int) * (
        img.height as int)) by (nonlinear_arith);
        assert forall|x: int, y: int, c: int|
            0 <= x < out.width && 0 <= y < out.height && 0 <= c < 3 implies #[trigger] out.at(
            x,
            y,
            c,
        ) == img.at(y, img.height - 1 - x, c) by {
            crate::img::lemma_rgb_index_bound(
                out.width as int,
                out.height as int,
                x,
                y,
                c,
            );
            crate::img::lemma_rgb_index_bound(
                img.width as int,
                img.height as int,
                y,
                img.height - 1 - x,
                c,
            );
        }
    }
    out
}

/// Four clockwise quarter turns bring every pixel back to its place: the
/// final image has the original's dimensions and content.
pub proof fn lemma_rotate90_four_times(a: RgbImg, b: RgbImg, c: RgbImg, d: RgbImg, e: RgbImg)
    requires
        a.wf(),
        is_rotate90(a, b),
        is_rotate90(b, c),
        is_rotate90(c, d),
        is_rotate90(d, e),
    ensures
        e.width == a.width,
        e.height == a.height,
        forall|x: int, y: int, ch: int|
            0 <= x < a.width && 0 <= y < a.height && 0 <= ch < 3 ==> #[trigger] e.at(x, y, ch)
                == a.at(x, y, ch),
{
    assert forall|x: int, y: int, ch: int|
        0 <= x < a.width && 0 <= y < a.height && 0 <= ch < 3 implies #[trigger] e.at(x, y, ch)
        == a.at(x, y, ch) by {
        assert(e.at(x, y, ch) == d.at(y, d.height - 1 - x, ch));
        assert(d.at(y, a.width - 1 - x, ch) == c.at(a.width - 1 - x, c.height - 1 - y, ch));
        assert(c.at(a.width - 1 - x, a.height - 1 - y, ch) == b.at(
            a.height - 1 - y,
            b.height - 1 - (a.width - 1 - x),
            ch,
        ));
        assert(b.at(a.height - 1 - y, x, ch) == a.at(x, a.height - 1 - (a.height - 1 - y), ch));
    }
}

/// The canvas side of a square-diagonal rotation: the least `n` with
/// `2 n^2 >= s^2`, that is the ceiling of `s / sqrt(2)`.  For a rotation
/// by 45 degrees about the center of a `w` by `h` image, both output
/// dimensions equal this value taken at `s = w + h`, since
/// `cos 45 = sin 45 = 1 / sqrt(2)`.
pub open spec fn is_ceil_half_diag(s: int, n: int) -> bool {
    &&& 0 <= n
    &&& 2 * n * n >= s * s
    &&& n > 0 ==> 2 * (n - 1) * (n - 1) < s * s
}

/// The output dimensions of the 45-degree rotation kernel:
/// `ceil((w + h) * cos 45)` by `ceil((w + h) * sin 45)`, both equal since
/// the two trigonometric factors coincide.  Computed exactly over
/// integers, so no floating-point rounding enters the dimension contract.
/// The bound on `w + h` keeps the result inside `u32`.
pub fn rotate45_dims(width: u32, height: u32) -> (r: (u32, u32))
    requires
        width + height <= 6_000_000_000,
    ensures
        r.0 == r.1,
        is_ceil_half_diag(width + height, r.0 as int),
{
    let s: u64 = width as u64 + height as u64;
    proof {
        assert((s as int) * (s as int) <= 36000000000000000000) by (nonlinear_arith)
            requires
                0 <= s <= 6000000000,
        ;
    }
    let sq: u128 = (s as u128) * (s as u128);
    let half: u128 = sq / 2;
    // floor(sqrt(sq / 2)) is either the canvas side or one short of it.
    let r0: u64 = crate::arith::isqrt(half);
    proof {
        assert((r0 as int) * (r0 as int) <= half);
        assert(half < ((r0 as int) + 1) * ((r0 as int) + 1));
        assert(r0 <= 4242640687) by (nonlinear_arith)
            requires
                0 <= r0,
                (r0 as int) * (r0 as int) <= half,
                half <= 18000000000000000000,
        ;
        crate::arith::lemma_mul_le((r0 + 1) as int, (r0 + 1) as int, 4242640689, 4242640689);
    }
    let c0: u128 = (r0 as u128) * (r0 as u128);
    let c1: u128 = (r0 as u128 + 1) * (r0 as u128 + 1);
    if 2 * c0 >= sq {
        proof {
            if r0 > 0 {
                assert(2 * ((r0 as int) - 1) * ((r0 as int) - 1) < sq) by (nonlinear_arith)
                    requires
                        1 <= r0,
                        (r0 as int) * (r0 as int) <= (sq as int) / 2,
                        0 <= sq,
                ;
            }
            assert(2 * (r0 as int) * (r0 as int) == 2 * ((r0 as int) * (r0 as int)))
                by (nonlinear_arith);
        }
        (r0 as u32, r0 as u32)
    } else {
        proof {
            assert(2 * ((r0 as int) + 1) * ((r0 as int) + 1) >= sq) by (nonlinear_arith)
                requires
                    (sq as int) / 2 < ((r0 as int) + 1) * ((r0 as int) + 1),
                    0 <= sq,
            ;
            assert(2 * (r0 as int) * (r0 as int) == 2 * ((r0 as int) * (r0 as int)))
                by (nonlinear_arith);
        }
        ((r0 + 1) as u32, (r0 + 1) as u32)
    }
}


/// `u * sqrt(2) >= -b`, decided over integers (`b >= 0`): true for
/// non-negative `u`, else equivalent to `2 u^2 <= b^2`.  Since `sqrt(2)`
/// is irrational the two sides are never equal unless both are zero, so
/// no rounding enters the decision.
pub open spec fn sqrt2_ge_neg(u: int, b: int) -> bool {
    u >= 0 || 2 * (u * u) <= b * b
}

/// `u * sqrt(2) < t`, decided over integers: sign analysis plus a
/// comparison of squares.  `sqrt(2)` being irrational, ties other than
/// `u == t == 0` cannot occur.
pub open spec fn sqrt2_lt(u: int, t: int) -> bool {
    if u < 0 {
        t > 0 || 2 * (u * u) > t * t
    } else {
        t > 0 && 2 * (u * u) < t * t
    }
}

/// The boundary policy of the 45-degree rotation: whether the output
/// pixel `(ox, oy)` of the `nw` by `nh` canvas maps back into the valid
/// interpolation interior of the `w` by `h` input, that is whether the
/// inverse-rotated source point `(sx, sy)` satisfies
/// `0 <= sx < w - 1` and `0 <= sy < h - 1`.  With
/// `cos 45 = sin 45 = 1 / sqrt(2)` the source point is
/// `sx = u sqrt(2) / 4 + w / 2` and `sy = v sqrt(2) / 4 + h / 2` for the
/// integers `u = (2 ox - nw) + (2 oy - nh)` and
/// `v = (2 oy - nh) - (2 ox - nw)`, so each comparison reduces to an
/// exact integer test.  An output pixel outside this interior keeps the
/// canvas fill (black).
pub open spec fn rotate45_in_interior(ox: int, oy: int, w: int, h: int, nw: int, nh: int) -> bool {
    let u = 2 * ox - nw + 2 * oy - nh;
    let v = 2 * oy - nh - (2 * ox - nw);
    &&& sqrt2_ge_neg(u, 2 * w)
    &&& sqrt2_lt(u, 2 * w - 4)
    &&& sqrt2_ge_neg(v, 2 * h)
    &&& sqrt2_lt(v, 2 * h - 4)
}

/// Decides the 45-degree rotation's interior test in exact integer
/// arithmetic; no floating-point rounding enters the boundary policy.
pub fn rotate45_interior(ox: u32, oy: u32, w: u32, h: u32, nw: u32, nh: u32) -> (r: bool)
    ensures
        r == rotate45_in_interior(ox as int, oy as int, w as int, h as int, nw as int, nh as int),
{
    let u: i128 = 2 * (ox as i128) - (nw as i128) + 2 * (oy as i128) - (nh as i128);
    let v: i128 = 2 * (oy as i128) - (nh as i128) - (2 * (ox as i128) - (nw as i128));
    proof {
        assert(-0x400000000 <= u <= 0x400000000 && -0x400000000 <= v <= 0x400000000);
        lemma_sq_small(u as int);
        lemma_sq_small(v as int);
        lemma_sq_small(2 * (w as int));
        lemma_sq_small(2 * (w as int) - 4);
        lemma_sq_small(2 * (h as int));
        lemma_sq_small(2 * (h as int) - 4);
    }
    let bw: i128 = 2 * (w as i128);
    let tw: i128 = 2 * (w as i128) - 4;
    let bh: i128 = 2 * (h as i128);
    let th: i128 = 2 * (h as i128) - 4;
    let uu: i128 = u * u;
    let vv: i128 = v * v;
    let c1 = u >= 0 || 2 * uu <= bw * bw;
    let c2 = if u < 0 {
        tw > 0 || 2 * uu > tw * tw
    } else {
        tw > 0 && 2 * uu < tw * tw
    };
    let c3 = v >= 0 || 2 * vv <= bh * bh;
    let c4 = if v < 0 {
        th > 0 || 2 * vv > th * th
    } else {
        th > 0 && 2 * vv < th * th
    };
    c1 && c2 && c3 && c4
}

/// Squares of small integers stay far inside the 128-bit range.
proof fn lemma_sq_small(u: int)
    requires
        -0x400000000 <= u <= 0x400000000,
    ensures
        0 <= u * u <= 0x100000000000000000,
{
    assert(0 <= u * u <= 0x100000000000000000) by (nonlinear_arith)
        requires
            -0x400000000 <= u <= 0x400000000,
    ;
}

} // verus!
