use vstd::prelude::*;

verus! {

/// A tri-channel 8-bit color image: `width * height` pixels in row-major
/// order, three consecutive bytes (red, green, blue) per pixel.
pub struct RgbImg {
    pub width: u32,
    pub height: u32,
    pub data: Vec<u8>,
}

/// A single-channel 8-bit luminance image: `width * height` pixels in
/// row-major order, one byte per pixel.
pub struct GrayImg {
    pub width: u32,
    pub height: u32,
    pub data: Vec<u8>,
}

impl RgbImg {
    /// The buffer holds exactly three bytes per pixel.
    pub open spec fn wf(self) -> bool {
        self.data@.len() == 3 * self.width * self.height
    }

    /// The channel `c` (0 = red, 1 = green, 2 = blue) of the pixel at
    /// column `x`, row `y`.
    pub open spec fn at(self, x: int, y: int, c: int) -> u8 {
        self.data@[3 * (y * self.width + x) + c]
    }

    /// Two images have the same content when their dimensions and every
    /// byte of their buffers agree.
    pub open spec fn same(self, other: Self) -> bool {
        self.width == other.width && self.height == other.height && self.data@ == other.data@
    }

    /// Builds an image from raw row-major interleaved bytes; `None` when
    /// the buffer length does not match the dimensions.
    pub fn from_raw(width: u32, height: u32, data: Vec<u8>) -> (r: Option<RgbImg>)
        ensures
            match r {
                Some(img) => img.wf() && img.width == width && img.height == height && img.data@
                    == data@,
                None => data@.len() != 3 * width * height,
            },
    {
        proof {
            assert((width as int) * (height as int) < 0x10000000000000000) by (nonlinear_arith)
                requires
                    width <= 0xffffffffu32,
                    height <= 0xffffffffu32,
            ;
        }
        let wh: u128 = (width as u128) * (height as u128);
        proof {
            assert(3 * ((width as int) * (height as int)) == 3 * (width as int) * (height as int))
                by (nonlinear_arith);
        }
        if data.len() as u128 == 3 * wh {
            Some(RgbImg { width, height, data })
        } else {
            None
        }
    }

    pub fn width(&self) -> (r: u32)
        ensures
            r == self.width,
    {
        self.width
    }

    pub fn height(&self) -> (r: u32)
        ensures
            r == self.height,
    {
        self.height
    }

    /// Reads one channel of one pixel.
    pub fn get(&self, x: u32, y: u32, c: u32) -> (r: u8)
        requires
            self.wf(),
            x < self.width,
            y < self.height,
            c < 3,
        ensures
            r == self.at(x as int, y as int, c as int),
    {
        let _len: usize = self.data.len();
        proof {
            lemma_rgb_index_bound(
                self.width as int,
                self.height as int,
                x as int,
                y as int,
                c as int,
            );
        }
        self.data[3 * ((y as usize) * (self.width as usize) + (x as usize)) + (c as usize)]
    }

    /// An exact copy of the image.
    pub fn duplicate(&self) -> (r: Self)
        ensures
            r.same(*self),
    {
        RgbImg { width: self.width, height: self.height, data: copy_bytes(&self.data) }
    }
}

impl GrayImg {
    /// The buffer holds exactly one byte per pixel.
    pub open spec fn wf(self) -> bool {
        self.data@.len() == self.width * self.height
    }

    /// The luminance of the pixel at column `x`, row `y`.
    pub open spec fn at(self, x: int, y: int) -> u8 {
        self.data@[y * self.width + x]
    }

    pub open spec fn same(self, other: Self) -> bool {
        self.width == other.width && self.height == other.height && self.data@ == other.data@
    }

    /// Builds an image from raw row-major bytes; `None` when the buffer
    /// length does not match the dimensions.
    pub fn from_raw(width: u32, height: u32, data: Vec<u8>) -> (r: Option<GrayImg>)
        ensures
            match r {
                Some(img) => img.wf() && img.width == width && img.height == height && img.data@
                    == data@,
                None => data@.len() != width * height,
            },
    {
        proof {
            assert((width as int) * (height as int) < 0x10000000000000000) by (nonlinear_arith)
                requires
                    width <= 0xffffffffu32,
                    height <= 0xffffffffu32,
            ;
        }
        let wh: u128 = (width as u128) * (height as u128);
        if data.len() as u128 == wh {
            Some(GrayImg { width, height, data })
        } else {
            None
        }
    }

    pub fn width(&self) -> (r: u32)
        ensures
            r == self.width,
    {
        self.width
    }

    pub fn height(&self) -> (r: u32)
        ensures
            r == self.height,
    {
        self.height
    }

    /// Reads one pixel.
    pub fn get(&self, x: u32, y: u32) -> (r: u8)
        requires
            self.wf(),
            x < self.width,
            y < self.height,
        ensures
            r == self.at(x as int, y as int),
    {
        let _len: usize = self.data.len();
        proof {
            lemma_gray_index_bound(self.width as int, self.height as int, x as int, y as int);
        }
        self.data[(y as usize) * (self.width as usize) + (x as usize)]
    }

    /// An exact copy of the image.
    pub fn duplicate(&self) -> (r: Self)
        ensures
            r.same(*self),
    {
        GrayImg { width: self.width, height: self.height, data: copy_bytes(&self.data) }
    }
}

/// A pixel index stays inside a tri-channel buffer.
pub proof fn lemma_rgb_index_bound(w: int, h: int, x: int, y: int, c: int)
    requires
        0 <= x < w,
        0 <= y < h,
        0 <= c < 3,
    ensures
        0 <= y * w + x < w * h,
        0 <= 3 * (y * w + x) + c < 3 * w * h,
{
    assert(y * w + x < w * h && 0 <= y * w + x) by (nonlinear_arith)
        requires
            0 <= x < w,
            0 <= y < h,
    ;
    assert(3 * (y * w + x) + c < 3 * (w * h)) by (nonlinear_arith)
        requires
            y * w + x < w * h,
            c < 3,
    ;
    assert(3 * (w * h) == 3 * w * h) by (nonlinear_arith);
}

/// A pixel index stays inside a single-channel buffer.
pub proof fn lemma_gray_index_bound(w: int, h: int, x: int, y: int)
    requires
        0 <= x < w,
        0 <= y < h,
    ensures
        0 <= y * w + x < w * h,
{
    assert(y * w + x < w * h && 0 <= y * w + x) by (nonlinear_arith)
        requires
            0 <= x < w,
            0 <= y < h,
    ;
}

/// Three bytes per pixel: the two readings of the product agree.
pub proof fn lemma_triple_size(w: int, h: int)
    ensures
        3 * w * h == 3 * (w * h),
{
    assert(3 * w * h == 3 * (w * h)) by (nonlinear_arith);
}

/// Copies a byte vector element by element.
pub fn copy_bytes(v: &Vec<u8>) -> (r: Vec<u8>)
    ensures
        r@ == v@,
{
    let mut r: Vec<u8> = Vec::new();
    for i in 0..v.len()
        invariant
            r@ == v@.take(i as int),
    {
        r.push(v[i]);
        proof {
            assert(v@.take(i + 1) =~= v@.take(i as int).push(v@[i as int]));
        }
    }
    proof {
        assert(v@.take(v@.len() as int) =~= v@);
    }
    r
}

} // verus!
