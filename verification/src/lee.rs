use vstd::prelude::*;

use crate::img::GrayImg;

verus! {

/// Sum of the luminances of row `y`, columns `[x0, x1)`.
pub open spec fn row_sum(d: Seq<u8>, w: int, y: int, x0: int, x1: int) -> int
    decreases x1 - x0,
{
    if x1 <= x0 {
        0
    } else {
        row_sum(d, w, y, x0, x1 - 1) + d[y * w + (x1 - 1)]
    }
}

/// Sum of the squared luminances of row `y`, columns `[x0, x1)`.
pub open spec fn row_sq(d: Seq<u8>, w: int, y: int, x0: int, x1: int) -> int
    decreases x1 - x0,
{
    if x1 <= x0 {
        0
    } else {
        row_sq(d, w, y, x0, x1 - 1) + d[y * w + (x1 - 1)] * d[y * w + (x1 - 1)]
    }
}

/// Sum of the luminances of the rectangle `[x0, x1) x [y0, y1)`.
pub open spec fn rect_sum(d: Seq<u8>, w: int, x0: int, x1: int, y0: int, y1: int) -> int
    decreases y1 - y0,
{
    if y1 <= y0 {
        0
    } else {
        rect_sum(d, w, x0, x1, y0, y1 - 1) + row_sum(d, w, y1 - 1, x0, x1)
    }
}

/// Sum of the squared luminances of the rectangle `[x0, x1) x [y0, y1)`.
pub open spec fn rect_sq(d: Seq<u8>, w: int, x0: int, x1: int, y0: int, y1: int) -> int
    decreases y1 - y0,
{
    if y1 <= y0 {
        0
    } else {
        rect_sq(d, w, x0, x1, y0, y1 - 1) + row_sq(d, w, y1 - 1, x0, x1)
    }
}

/// The numerator of the global variance over the whole image, on the
/// common denominator `(w h)^2`: `w h * sum(v^2) - (sum v)^2`.
pub open spec fn global_var_num(d: Seq<u8>, w: int, h: int) -> int {
    w * h * rect_sq(d, w, 0, w, 0, h) - rect_sum(d, w, 0, w, 0, h) * rect_sum(d, w, 0, w, 0, h)
}

/// Left edge of the filter window centred at `x` (half-width 3, clipped).
pub open spec fn win_lo(x: int) -> int {
    if x >= 3 {
        x - 3
    } else {
        0
    }
}

/// One past the right edge of the filter window centred at `x`.
pub open spec fn win_hi(x: int, limit: int) -> int {
    if x + 4 <= limit {
        x + 4
    } else {
        limit
    }
}

/// The Lee filter output at `(x, y)`, written over a common denominator.
/// With `n` window pixels, local sums `ls`, `lsq` and global sums over
/// `N = w h` pixels, the local and global variances are
/// `(n lsq - ls^2) / n^2` and `global_var_num / N^2`; the adaptive weight
/// is `localVar / (localVar + globalVar) = A / (A + B)` with
/// `A = (n lsq - ls^2) N^2` and `B = global_var_num n^2`; and the output
/// `localMean + weight (center - localMean)` becomes the fraction
/// `(ls B + A c n) / (n (A + B))`, rounded half-up and capped at 255.
pub open spec fn lee_pixel(d: Seq<u8>, w: int, h: int, x: int, y: int) -> int {
    let xs = win_lo(x);
    let xe = win_hi(x, w);
    let ys = win_lo(y);
    let ye = win_hi(y, h);
    let n = (xe - xs) * (ye - ys);
    let ls = rect_sum(d, w, xs, xe, ys, ye);
    let lsq = rect_sq(d, w, xs, xe, ys, ye);
    let c = d[y * w + x] as int;
    let big_n = w * h;
    let aa = (n * lsq - ls * ls) * (big_n * big_n);
    let bb = global_var_num(d, w, h) * (n * n);
    let num = ls * bb + aa * c * n;
    let den = n * (aa + bb);
    let q = (2 * num + den) / (2 * den);
    if q > 255 {
        255
    } else {
        q
    }
}

/// Row sums are non-negative and bounded by the extreme luminance.
pub proof fn lemma_row_bounds(d: Seq<u8>, w: int, y: int, x0: int, x1: int)
    requires
        x0 <= x1,
    ensures
        0 <= row_sum(d, w, y, x0, x1) <= 255 * (x1 - x0),
        0 <= row_sq(d, w, y, x0, x1) <= 65025 * (x1 - x0),
    decreases x1 - x0,
{
    if x1 > x0 {
        lemma_row_bounds(d, w, y, x0, x1 - 1);
        let v = d[y * w + (x1 - 1)] as int;
        assert(v * v <= 65025) by (nonlinear_arith)
            requires
                0 <= v <= 255,
        ;
    }
}

/// Rectangle sums are non-negative and bounded by the extreme luminance.
pub proof fn lemma_rect_bounds(d: Seq<u8>, w: int, x0: int, x1: int, y0: int, y1: int)
    requires
        x0 <= x1,
        y0 <= y1,
    ensures
        0 <= rect_sum(d, w, x0, x1, y0, y1) <= 255 * (x1 - x0) * (y1 - y0),
        0 <= rect_sq(d, w, x0, x1, y0, y1) <= 65025 * (x1 - x0) * (y1 - y0),
    decreases y1 - y0,
{
    if y1 <= y0 {
        assert(255 * (x1 - x0) * (y1 - y0) == 0) by (nonlinear_arith)
            requires
                y1 == y0,
        ;
        assert(65025 * (x1 - x0) * (y1 - y0) == 0) by (nonlinear_arith)
            requires
                y1 == y0,
        ;
    } else {
        lemma_rect_bounds(d, w, x0, x1, y0, y1 - 1);
        lemma_row_bounds(d, w, y1 - 1, x0, x1);
        assert(255 * (x1 - x0) * (y1 - y0 - 1) + 255 * (x1 - x0) == 255 * (x1 - x0) * (y1 - y0))
            by (nonlinear_arith);
        assert(65025 * (x1 - x0) * (y1 - y0 - 1) + 65025 * (x1 - x0) == 65025 * (x1 - x0) * (y1
            - y0)) by (nonlinear_arith);
    }
}

/// Merging two sample groups preserves the Cauchy-Schwarz inequality
/// `count * sum of squares >= square of sum`.
pub proof fn lemma_cs_merge(k1: int, s1: int, q1: int, k2: int, s2: int, q2: int)
    requires
        k1 >= 0,
        k2 >= 0,
        q1 >= 0,
        q2 >= 0,
        k1 * q1 >= s1 * s1,
        k2 * q2 >= s2 * s2,
    ensures
        (k1 + k2) * (q1 + q2) >= (s1 + s2) * (s1 + s2),
{
    if k1 == 0 {
        assert(s1 == 0) by (nonlinear_arith)
            requires
                0 >= s1 * s1,
        ;
        assert((k1 + k2) * (q1 + q2) >= (s1 + s2) * (s1 + s2)) by (nonlinear_arith)
            requires
                s1 == 0,
                k1 == 0,
                k2 >= 0,
                q1 >= 0,
                k2 * q2 >= s2 * s2,
        ;
    } else if k2 == 0 {
        assert(s2 == 0) by (nonlinear_arith)
            requires
                0 >= s2 * s2,
        ;
        assert((k1 + k2) * (q1 + q2) >= (s1 + s2) * (s1 + s2)) by (nonlinear_arith)
            requires
                s2 == 0,
                k2 == 0,
                k1 >= 0,
                q2 >= 0,
                k1 * q1 >= s1 * s1,
        ;
    } else {
        // (k1 s2 - k2 s1)^2 >= 0 gives k1^2 s2^2 + k2^2 s1^2 >= 2 k1 k2 s1 s2,
        // so k1 k2 (k1 q2 + k2 q1) >= k1^2 s2^2 + k2^2 s1^2 >= 2 k1 k2 s1 s2.
        assert(k1 * k2 * (k1 * q2 + k2 * q1) >= k1 * k2 * (2 * s1 * s2)) by (nonlinear_arith)
            requires
                k1 > 0,
                k2 > 0,
                k1 * q1 >= s1 * s1,
                k2 * q2 >= s2 * s2,
        ;
        assert(k1 * q2 + k2 * q1 >= 2 * s1 * s2) by (nonlinear_arith)
            requires
                k1 > 0,
                k2 > 0,
                k1 * k2 * (k1 * q2 + k2 * q1) >= k1 * k2 * (2 * s1 * s2),
        ;
        assert((k1 + k2) * (q1 + q2) >= (s1 + s2) * (s1 + s2)) by (nonlinear_arith)
            requires
                k1 * q1 >= s1 * s1,
                k2 * q2 >= s2 * s2,
                k1 * q2 + k2 * q1 >= 2 * s1 * s2,
        ;
    }
}

/// Cauchy-Schwarz along one row.
pub proof fn lemma_row_cs(d: Seq<u8>, w: int, y: int, x0: int, x1: int)
    requires
        x0 <= x1,
    ensures
        (x1 - x0) * row_sq(d, w, y, x0, x1) >= row_sum(d, w, y, x0, x1) * row_sum(d, w, y, x0, x1),
    decreases x1 - x0,
{
    if x1 > x0 {
        lemma_row_cs(d, w, y, x0, x1 - 1);
        lemma_row_bounds(d, w, y, x0, x1 - 1);
        let v = d[y * w + (x1 - 1)] as int;
        lemma_cs_merge(
            x1 - 1 - x0,
            row_sum(d, w, y, x0, x1 - 1),
            row_sq(d, w, y, x0, x1 - 1),
            1,
            v,
            v * v,
        );
    }
}

/// Cauchy-Schwarz over a rectangle: the count times the sum of squares
/// dominates the squared sum, so every variance numerator is non-negative.
pub proof fn lemma_rect_cs(d: Seq<u8>, w: int, x0: int, x1: int, y0: int, y1: int)
    requires
        x0 <= x1,
        y0 <= y1,
    ensures
        (x1 - x0) * (y1 - y0) * rect_sq(d, w, x0, x1, y0, y1) >= rect_sum(d, w, x0, x1, y0, y1)
            * rect_sum(d, w, x0, x1, y0, y1),
    decreases y1 - y0,
{
    if y1 <= y0 {
        assert((x1 - x0) * (y1 - y0) * rect_sq(d, w, x0, x1, y0, y1) == 0) by (nonlinear_arith)
            requires
                y1 == y0,
        ;
    } else {
        lemma_rect_cs(d, w, x0, x1, y0, y1 - 1);
        lemma_row_cs(d, w, y1 - 1, x0, x1);
        lemma_rect_bounds(d, w, x0, x1, y0, y1 - 1);
        lemma_row_bounds(d, w, y1 - 1, x0, x1);
        lemma_cs_merge(
            (x1 - x0) * (y1 - y0 - 1),
            rect_sum(d, w, x0, x1, y0, y1 - 1),
            rect_sq(d, w, x0, x1, y0, y1 - 1),
            x1 - x0,
            row_sum(d, w, y1 - 1, x0, x1),
            row_sq(d, w, y1 - 1, x0, x1),
        );
        assert((x1 - x0) * (y1 - y0 - 1) * rect_sq(d, w, x0, x1, y0, y1 - 1) == ((x1 - x0) * (y1
            - y0 - 1)) * rect_sq(d, w, x0, x1, y0, y1 - 1)) by (nonlinear_arith);
        assert(((x1 - x0) * (y1 - y0 - 1) + (x1 - x0)) == (x1 - x0) * (y1 - y0))
            by (nonlinear_arith);
        assert(((x1 - x0) * (y1 - y0)) * (rect_sq(d, w, x0, x1, y0, y1 - 1) + row_sq(
            d,
            w,
            y1 - 1,
            x0,
            x1,
        )) == (x1 - x0) * (y1 - y0) * rect_sq(d, w, x0, x1, y0, y1)) by (nonlinear_arith)
            requires
                rect_sq(d, w, x0, x1, y0, y1) == rect_sq(d, w, x0, x1, y0, y1 - 1) + row_sq(
                    d,
                    w,
                    y1 - 1,
                    x0,
                    x1,
                ),
        ;
    }
}

/// On a row of one constant value the sums are count times the value.
pub proof fn lemma_row_const(d: Seq<u8>, w: int, h: int, y: int, x0: int, x1: int, v: u8)
    requires
        d.len() == w * h,
        forall|p: int| 0 <= p < d.len() ==> d[p] == v,
        0 <= x0 <= x1 <= w,
        0 <= y < h,
    ensures
        row_sum(d, w, y, x0, x1) == (x1 - x0) * v,
        row_sq(d, w, y, x0, x1) == (x1 - x0) * (v * v),
    decreases x1 - x0,
{
    if x1 > x0 {
        lemma_row_const(d, w, h, y, x0, x1 - 1, v);
        crate::img::lemma_gray_index_bound(w, h, x1 - 1, y);
        assert((x1 - 1 - x0) * v + v == (x1 - x0) * v) by (nonlinear_arith);
        assert((x1 - 1 - x0) * (v * v) + v * v == (x1 - x0) * (v * v)) by (nonlinear_arith);
    } else {
        assert((x1 - x0) * v == 0) by (nonlinear_arith)
            requires
                x1 == x0,
        ;
        assert((x1 - x0) * (v * v) == 0) by (nonlinear_arith)
            requires
                x1 == x0,
        ;
    }
}

/// On a rectangle of one constant value the sums are count times the value.
pub proof fn lemma_rect_const(d: Seq<u8>, w: int, h: int, x0: int, x1: int, y0: int, y1: int, v: u8)
    requires
        d.len() == w * h,
        forall|p: int| 0 <= p < d.len() ==> d[p] == v,
        0 <= x0 <= x1 <= w,
        0 <= y0 <= y1 <= h,
    ensures
        rect_sum(d, w, x0, x1, y0, y1) == (x1 - x0) * (y1 - y0) * v,
        rect_sq(d, w, x0, x1, y0, y1) == (x1 - x0) * (y1 - y0) * (v * v),
    decreases y1 - y0,
{
    if y1 > y0 {
        lemma_rect_const(d, w, h, x0, x1, y0, y1 - 1, v);
        lemma_row_const(d, w, h, y1 - 1, x0, x1, v);
        assert((x1 - x0) * (y1 - y0 - 1) * v + (x1 - x0) * v == (x1 - x0) * (y1 - y0) * v)
            by (nonlinear_arith);
        assert((x1 - x0) * (y1 - y0 - 1) * (v * v) + (x1 - x0) * (v * v) == (x1 - x0) * (y1 - y0)
            * (v * v)) by (nonlinear_arith);
    } else {
        assert((x1 - x0) * (y1 - y0) * v == 0 && (x1 - x0) * (y1 - y0) * (v * v) == 0)
            by (nonlinear_arith)
            requires
                y1 == y0,
        ;
    }
}

/// On a constant image the global variance numerator is exactly zero, so
/// the Lee filter hands the image back unchanged.
pub proof fn lemma_lee_constant(d: Seq<u8>, w: int, h: int, v: u8)
    requires
        d.len() == w * h,
        forall|p: int| 0 <= p < d.len() ==> d[p] == v,
        0 <= w,
        0 <= h,
    ensures
        global_var_num(d, w, h) == 0,
{
    lemma_rect_const(d, w, h, 0, w, 0, h, v);
    assert(w * h * (w * h * (v * v)) - (w * h * v) * (w * h * v) == 0) by (nonlinear_arith);
}


/// Sums of luminance and squared luminance over the whole image.
fn global_sums(img: &GrayImg) -> (r: (u64, u64))
    requires
        img.wf(),
        img.width * img.height <= 0xffffffff,
    ensures
        r.0 == rect_sum(img.data@, img.width as int, 0, img.width as int, 0, img.height as int),
        r.1 == rect_sq(img.data@, img.width as int, 0, img.width as int, 0, img.height as int),
{
    let w = img.width;
    let h = img.height;
    let d = &img.data;
    let total: usize = d.len();
    let mut sum: u64 = 0;
    let mut sq: u64 = 0;
    let mut y: u32 = 0;
    while y < h
        invariant
            img.wf(),
            w == img.width,
            h == img.height,
            d == img.data,
            total == d@.len(),
            (w as int) * (h as int) <= 0xffffffff,
            y <= h,
            sum == rect_sum(d@, w as int, 0, w as int, 0, y as int),
            sq == rect_sq(d@, w as int, 0, w as int, 0, y as int),
            0 <= sum <= 255 * ((y as int) * (w as int)),
            0 <= sq <= 65025 * ((y as int) * (w as int)),
            (y as int) * (w as int) <= (w as int) * (h as int),
        decreases h - y,
    {
        let mut x: u32 = 0;
        while x < w
            invariant
                img.wf(),
                w == img.width,
                h == img.height,
                d == img.data,
                total == d@.len(),
                (w as int) * (h as int) <= 0xffffffff,
                y < h,
                x <= w,
                sum == rect_sum(d@, w as int, 0, w as int, 0, y as int) + row_sum(
                    d@,
                    w as int,
                    y as int,
                    0,
                    x as int,
                ),
                sq == rect_sq(d@, w as int, 0, w as int, 0, y as int) + row_sq(
                    d@,
                    w as int,
                    y as int,
                    0,
                    x as int,
                ),
                0 <= sum <= 255 * ((y as int) * (w as int) + x),
                0 <= sq <= 65025 * ((y as int) * (w as int) + x),
                (y as int) * (w as int) + x <= (w as int) * (h as int),
            decreases w - x,
        {
            proof {
                crate::img::lemma_gray_index_bound(w as int, h as int, x as int, y as int);
                assert((y as int) * (w as int) + (x as int) + 1 <= (w as int) * (h as int))
                    by (nonlinear_arith)
                    requires
                        0 <= x < w,
                        0 <= y < h,
                ;
            }
            let idx: usize = (y as usize) * (w as usize) + (x as usize);
            let v: u64 = d[idx] as u64;
            proof {
                assert(v * v <= 65025) by (nonlinear_arith)
                    requires
                        0 <= v <= 255,
                ;
            }
            sum = sum + v;
            sq = sq + v * v;
            x = x + 1;
        }
        y = y + 1;
        proof {
            assert((y - 1) * (w as int) + (w as int) == (y as int) * (w as int))
                by (nonlinear_arith);
            assert((y as int) * (w as int) <= (w as int) * (h as int)) by (nonlinear_arith)
                requires
                    0 < y <= h,
                    0 <= w,
            ;
        }
    }
    (sum, sq)
}

/// Window pixel count and sums of luminance and squared luminance over
/// the clipped 7x7 window centred at `(x, y)`.
fn window_sums(img: &GrayImg, x: u32, y: u32) -> (r: (u32, u32, u32))
    requires
        img.wf(),
        x < img.width,
        y < img.height,
    ensures
        ({
            let d = img.data@;
            let w = img.width as int;
            let h = img.height as int;
            let xs = win_lo(x as int);
            let xe = win_hi(x as int, w);
            let ys = win_lo(y as int);
            let ye = win_hi(y as int, h);
            &&& r.0 == (xe - xs) * (ye - ys)
            &&& 1 <= r.0 <= 49
            &&& r.1 == rect_sum(d, w, xs, xe, ys, ye)
            &&& r.2 == rect_sq(d, w, xs, xe, ys, ye)
        }),
{
    let w = img.width;
    let h = img.height;
    let d = &img.data;
    let total: usize = d.len();
    let xs: u32 = if x >= 3 { x - 3 } else { 0 };
    let xe: u32 = if (x as u64) + 4 <= (w as u64) { x + 4 } else { w };
    let ys: u32 = if y >= 3 { y - 3 } else { 0 };
    let ye: u32 = if (y as u64) + 4 <= (h as u64) { y + 4 } else { h };
    let mut ls: u32 = 0;
    let mut lsq: u32 = 0;
    let mut wy: u32 = ys;
    proof {
        assert(xe == win_hi(x as int, w as int));
        assert(ye == win_hi(y as int, h as int));
    }
    while wy < ye
        invariant
            img.wf(),
            w == img.width,
            h == img.height,
            d == img.data,
            total == d@.len(),
            xs == win_lo(x as int),
            xe == win_hi(x as int, w as int),
            ys == win_lo(y as int),
            ye == win_hi(y as int, h as int),
            x < w,
            y < h,
            xs <= x < xe <= w,
            ys <= wy <= ye <= h,
            xe - xs <= 7,
            ye - ys <= 7,
            ls == rect_sum(d@, w as int, xs as int, xe as int, ys as int, wy as int),
            lsq == rect_sq(d@, w as int, xs as int, xe as int, ys as int, wy as int),
        decreases ye - wy,
    {
        let mut wx: u32 = xs;
        while wx < xe
            invariant
                img.wf(),
                w == img.width,
                h == img.height,
                d == img.data,
                total == d@.len(),
                xs == win_lo(x as int),
                xe == win_hi(x as int, w as int),
                ys == win_lo(y as int),
                ye == win_hi(y as int, h as int),
                x < w,
                y < h,
                xs <= x < xe <= w,
                ys <= wy < ye <= h,
                xs <= wx <= xe,
                xe - xs <= 7,
                ye - ys <= 7,
                ls == rect_sum(d@, w as int, xs as int, xe as int, ys as int, wy as int) + row_sum(
                    d@,
                    w as int,
                    wy as int,
                    xs as int,
                    wx as int,
                ),
                lsq == rect_sq(d@, w as int, xs as int, xe as int, ys as int, wy as int) + row_sq(
                    d@,
                    w as int,
                    wy as int,
                    xs as int,
                    wx as int,
                ),
            decreases xe - wx,
        {
            proof {
                crate::img::lemma_gray_index_bound(w as int, h as int, wx as int, wy as int);
            }
            let idx: usize = (wy as usize) * (w as usize) + (wx as usize);
            let v: u32 = d[idx] as u32;
            proof {
                assert(v * v <= 65025) by (nonlinear_arith)
                    requires
                        0 <= v <= 255,
                ;
            }
            proof {
                lemma_rect_bounds(d@, w as int, xs as int, xe as int, ys as int, wy as int);
                lemma_row_bounds(d@, w as int, wy as int, xs as int, wx as int);
                assert(255 * ((xe - xs) as int) * ((wy - ys) as int) <= 255 * 49)
                    by (nonlinear_arith)
                    requires
                        0 <= (xe - xs) as int <= 7,
                        0 <= (wy - ys) as int <= 7,
                ;
                assert(65025 * ((xe - xs) as int) * ((wy - ys) as int) <= 65025 * 49)
                    by (nonlinear_arith)
                    requires
                        0 <= (xe - xs) as int <= 7,
                        0 <= (wy - ys) as int <= 7,
                ;
            }
            ls = ls + v;
            lsq = lsq + v * v;
            wx = wx + 1;
        }
        wy = wy + 1;
    }
    proof {
        assert(1 <= ((xe - xs) as int) * ((ye - ys) as int) <= 49) by (nonlinear_arith)
            requires
                1 <= xe - xs <= 7,
                1 <= ye - ys <= 7,
        ;
    }
    let n: u32 = (xe - xs) * (ye - ys);
    (n, ls, lsq)
}

/// The Lee adaptive speckle filter on a luminance image: window half-width
/// 3 (windows clipped at the borders, never padded), weight
/// `localVar / (localVar + globalVar)`, output
/// `localMean + weight (center - localMean)` rounded half-up.  When the
/// global variance is exactly zero the input comes back unchanged.  The
/// bound on the pixel count mirrors the 32-bit pixel arithmetic of the
/// benchmark harness.
pub fn lee_filter(img: &GrayImg) -> (out: GrayImg)
    requires
        img.wf(),
        img.width * img.height <= 0xffffffff,
    ensures
        out.wf(),
        out.width == img.width,
        out.height == img.height,
        global_var_num(img.data@, img.width as int, img.height as int) == 0 ==> out.data@
            == img.data@,
        global_var_num(img.data@, img.width as int, img.height as int) != 0 ==> forall|
            x: int,
            y: int,
        |
            0 <= x < img.width && 0 <= y < img.height ==> #[trigger] out.at(x, y) as int
                == lee_pixel(img.data@, img.width as int, img.height as int, x, y),
{
    let w = img.width;
    let h = img.height;
    let (tsum, tsq) = global_sums(img);
    let nn: u64 = (w as u64) * (h as u64);
    proof {
        lemma_rect_cs(img.data@, w as int, 0, w as int, 0, h as int);
        lemma_rect_bounds(img.data@, w as int, 0, w as int, 0, h as int);
        assert((w as int) * (h as int) * tsq == ((w as int) * (h as int)) * tsq)
            by (nonlinear_arith);
        assert(255 * (w as int) * (h as int) == 255 * ((w as int) * (h as int)))
            by (nonlinear_arith);
        assert(65025 * (w as int) * (h as int) == 65025 * ((w as int) * (h as int)))
            by (nonlinear_arith);
        crate::arith::lemma_mul_le(nn as int, tsq as int, 0xffffffff as int, (0xffffffff * 65025) as int);
        crate::arith::lemma_mul_le(tsum as int, tsum as int, (0xffffffff * 255) as int, (0xffffffff * 255) as int);
    }
    proof {
        assert((tsum as int) * (tsum as int) >= 0) by (nonlinear_arith);
    }
    let gn: u128 = (nn as u128) * (tsq as u128) - (tsum as u128) * (tsum as u128);
    if gn == 0 {
        return img.duplicate();
    }
    let total: usize = img.data.len();
    let mut data: Vec<u8> = Vec::new();
    let mut y: u32 = 0;
    while y < h
        invariant
            img.wf(),
            w == img.width,
            h == img.height,
            total == img.data@.len(),
            (w as int) * (h as int) <= 0xffffffff,
            nn == (w as int) * (h as int),
            gn == global_var_num(img.data@, w as int, h as int),
            gn > 0,
            gn < 0x100000000000000000000,
            tsum == rect_sum(img.data@, w as int, 0, w as int, 0, h as int),
            tsq == rect_sq(img.data@, w as int, 0, w as int, 0, h as int),
            y <= h,
            data@.len() == y * w,
            forall|xx: int, yy: int|
                0 <= xx < w && 0 <= yy < y ==> #[trigger] data@[yy * w + xx] as int == lee_pixel(
                    img.data@,
                    w as int,
                    h as int,
                    xx,
                    yy,
                ),
        decreases h - y,
    {
        let mut x: u32 = 0;
        while x < w
            invariant
                img.wf(),
                w == img.width,
                h == img.height,
                total == img.data@.len(),
                (w as int) * (h as int) <= 0xffffffff,
                nn == (w as int) * (h as int),
                gn == global_var_num(img.data@, w as int, h as int),
                gn > 0,
                gn < 0x100000000000000000000,
                tsum == rect_sum(img.data@, w as int, 0, w as int, 0, h as int),
                tsq == rect_sq(img.data@, w as int, 0, w as int, 0, h as int),
                y < h,
                x <= w,
                data@.len() == y * w + x,
                forall|xx: int, yy: int|
                    0 <= xx < w && 0 <= yy < y ==> #[trigger] data@[yy * w + xx] as int
                        == lee_pixel(img.data@, w as int, h as int, xx, yy),
                forall|xx: int|
                    0 <= xx < x ==> #[trigger] data@[y * w + xx] as int == lee_pixel(
                        img.data@,
                        w as int,
                        h as int,
                        xx,
                        y as int,
                    ),
            decreases w - x,
        {
            let (n, ls, lsq) = window_sums(img, x, y);
            proof {
                let d = img.data@;
                let xs = win_lo(x as int);
                let xe = win_hi(x as int, w as int);
                let ys = win_lo(y as int);
                let ye = win_hi(y as int, h as int);
                lemma_rect_cs(d, w as int, xs, xe, ys, ye);
                lemma_rect_bounds(d, w as int, xs, xe, ys, ye);
                assert((xe - xs) * (ye - ys) * rect_sq(d, w as int, xs, xe, ys, ye) == (n as int)
                    * (lsq as int)) by (nonlinear_arith)
                    requires
                        (n as int) == (xe - xs) * (ye - ys),
                        lsq == rect_sq(d, w as int, xs, xe, ys, ye),
                ;
                assert(255 * (xe - xs) * (ye - ys) <= 255 * 49) by (nonlinear_arith)
                    requires
                        0 <= xe - xs <= 7,
                        0 <= ye - ys <= 7,
                ;
                assert(65025 * (xe - xs) * (ye - ys) <= 65025 * 49) by (nonlinear_arith)
                    requires
                        0 <= xe - xs <= 7,
                        0 <= ye - ys <= 7,
                ;
                crate::arith::lemma_mul_le(n as int, lsq as int, 49 as int, (65025 * 49) as int);
                crate::arith::lemma_mul_le(ls as int, ls as int, (255 * 49) as int, (255 * 49) as int);
            }
            let lvn: u64 = (n as u64) * (lsq as u64) - (ls as u64) * (ls as u64);
            proof {
                crate::arith::lemma_mul_le(nn as int, nn as int, 0xffffffff, 0xffffffff);
                crate::arith::lemma_mul_le(
                    lvn as int,
                    (nn as int) * (nn as int),
                    0x10000000 as int,
                    (0xffffffff * 0xffffffff) as int,
                );
            }
            let nn2: u128 = (nn as u128) * (nn as u128);
            let aa: u128 = (lvn as u128) * nn2;
            proof {
                assert((n as int) * (n as int) <= 2401) by (nonlinear_arith)
                    requires
                        0 <= n <= 49,
                ;
                crate::arith::lemma_mul_le(gn as int, (n as int) * (n as int), 0x100000000000000000000 as int, 2401 as int);
            }
            let bb: u128 = gn * ((n as u128) * (n as u128));
            proof {
                crate::img::lemma_gray_index_bound(w as int, h as int, x as int, y as int);
            }
            let idx: usize = (y as usize) * (w as usize) + (x as usize);
            let c: u32 = img.data[idx] as u32;
            proof {
                assert(0 <= (c as int) * (n as int) <= 255 * 49) by (nonlinear_arith)
                    requires
                        0 <= c <= 255,
                        0 <= n <= 49,
                ;
                crate::arith::lemma_mul_le(ls as int, bb as int, 0x4000 as int, 0x100000000000000000000000 as int);
                crate::arith::lemma_mul_le(aa as int, (c as int) * (n as int), 0x100000000000000000000000 as int, (255 * 49) as int);
            }
            let cn: u128 = (c as u128) * (n as u128);
            let num: u128 = (ls as u128) * bb + aa * cn;
            proof {
                crate::arith::lemma_mul_le(
                    n as int,
                    (aa + bb) as int,
                    49 as int,
                    0x200000000000000000000000 as int,
                );
                assert(bb > 0) by (nonlinear_arith)
                    requires
                        gn > 0,
                        n >= 1,
                        bb == (gn as int) * ((n as int) * (n as int)),
                ;
            }
            let den: u128 = (n as u128) * (aa + bb);
            proof {
                assert(den > 0) by (nonlinear_arith)
                    requires
                        den == (n as int) * ((aa as int) + (bb as int)),
                        n >= 1,
                        bb > 0,
                        aa >= 0,
                ;
            }
            let q: u128 = (2 * num + den) / (2 * den);
            let v: u8 = if q > 255 {
                255
            } else {
                q as u8
            };
            proof {
                let d = img.data@;
                let xs = win_lo(x as int);
                let xe = win_hi(x as int, w as int);
                let ys = win_lo(y as int);
                let ye = win_hi(y as int, h as int);
                let sn = (xe - xs) * (ye - ys);
                let sls = rect_sum(d, w as int, xs, xe, ys, ye);
                let slsq = rect_sq(d, w as int, xs, xe, ys, ye);
                let sc = d[(y as int) * (w as int) + (x as int)] as int;
                let sbn = (w as int) * (h as int);
                assert(aa == (sn * slsq - sls * sls) * (sbn * sbn)) by (nonlinear_arith)
                    requires
                        lvn == sn * slsq - sls * sls,
                        nn2 == sbn * sbn,
                        aa == (lvn as int) * (nn2 as int),
                        nn == sbn,
                ;
                assert(bb == global_var_num(d, w as int, h as int) * (sn * sn))
                    by (nonlinear_arith)
                    requires
                        gn == global_var_num(d, w as int, h as int),
                        bb == (gn as int) * ((sn as int) * (sn as int)),
                ;
                assert(aa * sc * (n as int) == (aa as int) * ((sc as int) * (n as int)))
                    by (nonlinear_arith);
                assert(num == sls * (bb as int) + (aa as int) * sc * sn);
                assert(v as int == lee_pixel(d, w as int, h as int, x as int, y as int));
            }
            data.push(v);
            x = x + 1;
            proof {
                assert(data@.len() == y * w + x);
                assert forall|xx: int, yy: int| 0 <= xx < w && 0 <= yy < y implies #[trigger] (yy
                    * w + xx) < (y as int) * (w as int) by {
                    assert(yy * w + xx < y * (w as int)) by (nonlinear_arith)
                        requires
                            0 <= xx < w,
                            0 <= yy,
                            yy < y,
                    ;
                }
            }
        }
        y = y + 1;
        proof {
            assert((y - 1) * w + w == y * w) by (nonlinear_arith);
        }
    }
    proof {
        assert(data@.len() == (h as int) * (w as int));
        assert((h as int) * (w as int) == (w as int) * (h as int)) by (nonlinear_arith);
    }
    GrayImg { width: w, height: h, data }
}

} // verus!
