use vstd::prelude::*;

use crate::img::RgbImg;

verus! {

/// Every byte of the buffer replaced by 255 minus its old value.
pub open spec fn invert_seq(s: Seq<u8>) -> Seq<u8> {
    s.map_values(|b: u8| (255 - b) as u8)
}

/// Inverting twice gives back the original buffer.
pub proof fn lemma_invert_involutive(s: Seq<u8>)
    ensures
        invert_seq(invert_seq(s)) == s,
{
    assert(invert_seq(invert_seq(s)) =~= s);
}

/// Inversion via the hand-written pixel loop: each channel of each pixel
/// becomes 255 minus its old value; dimensions are unchanged.
pub fn invert_manual(img: &mut RgbImg)
    requires
        old(img).wf(),
    ensures
        final(img).wf(),
        final(img).width == old(img).width,
        final(img).height == old(img).height,
        final(img).data@ == invert_seq(old(img).data@),
{
    let n: usize = img.data.len();
    let mut i: usize = 0;
    while i < n
        invariant
            img.wf(),
            img.width == old(img).width,
            img.height == old(img).height,
            n == img.data@.len(),
            i <= n,
            forall|j: int| 0 <= j < i ==> img.data@[j] == (255 - old(img).data@[j]) as u8,
            forall|j: int| i <= j < n ==> img.data@[j] == old(img).data@[j],
        decreases n - i,
    {
        let b = img.data[i];
        img.data[i] = 255 - b;
        i = i + 1;
    }
    proof {
        assert(img.data@ =~= invert_seq(old(img).data@));
    }
}

/// Relies on `image::imageops::colorops::invert`, which replaces every
/// channel of every `Rgb<u8>` pixel by 255 minus its old value
/// (`Invert for Rgb<T>`: `max - c` with `max = 255` for `u8`).
#[verifier::external_body]
fn lib_invert_raw(width: u32, height: u32, data: &Vec<u8>) -> (r: Vec<u8>)
    requires
        data@.len() == 3 * width * height,
    ensures
        r@ == invert_seq(data@),
{
    let mut buf = image::RgbImage::from_raw(width, height, data.clone())
        .expect("buffer length matches the dimensions");
    image::imageops::colorops::invert(&mut buf);
    buf.into_raw()
}

/// Inversion via the image library's routine; same contract as the
/// hand-written loop.
pub fn invert_builtin(img: &mut RgbImg)
    requires
        old(img).wf(),
    ensures
        final(img).wf(),
        final(img).width == old(img).width,
        final(img).height == old(img).height,
        final(img).data@ == invert_seq(old(img).data@),
{
    let out = lib_invert_raw(img.width, img.height, &img.data);
    img.data = out;
}

} // verus!
