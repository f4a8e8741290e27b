//! Resampling of a raster to other dimensions, done by the `image` crate.

use vstd::prelude::*;
use crate::raster::{Raster, RasterView};

verus! {

/// `image::imageops::resize` with `FilterType::Lanczos3`, on an RGBA image
/// of 8-bit samples that `ImageBuffer::from_raw` makes of the raw buffer and
/// `ImageBuffer::into_raw` hands back as one.
///
/// What is claimed of it: the result holds `new_width * new_height` pixels,
/// and where these are the dimensions of the source, the result is a copy of
/// the source, since the crate then copies and does not filter. For other
/// dimensions the samples come out of a filter that is evaluated in floating
/// point, sines included, whose last bit the platform decides; nothing is
/// said of them. The call is taken to return for every source with pixels,
/// memory permitting. The bounds asked of the caller are those of the three
/// buffers in play, whose lengths the crate refuses to let overflow: the
/// source, the intermediate image of `width` by `new_height` pixels, and
/// the result.
#[verifier::external_body]
fn resize_lanczos3(
    width: u32,
    height: u32,
    samples: &Vec<u8>,
    new_width: u32,
    new_height: u32,
) -> (out: Vec<u8>)
    requires
        width > 0,
        height > 0,
        new_width > 0,
        new_height > 0,
        samples@.len() == 4 * width * height,
        4 * width * new_height <= usize::MAX,
        4 * new_width * new_height <= usize::MAX,
    ensures
        out@.len() == 4 * new_width * new_height,
        (new_width == width && new_height == height) ==> out@ == samples@,
{
    let source = image::ImageBuffer::<image::Rgba<u8>, &[u8]>::from_raw(
        width,
        height,
        samples.as_slice(),
    ).unwrap();
    image::imageops::resize(
        &source,
        new_width,
        new_height,
        image::imageops::FilterType::Lanczos3,
    ).into_raw()
}

/// Whether `scaled` can be what resampling `img` to `new_w` by `new_h`
/// returns: a raster of those dimensions, and `img` itself where the
/// dimensions do not change.
pub open spec fn resampled(img: RasterView, new_w: int, new_h: int, scaled: RasterView) -> bool {
    &&& scaled.wf()
    &&& scaled.width == new_w
    &&& scaled.height == new_h
    &&& (new_w == img.width && new_h == img.height) ==> scaled == img
}

/// Whether the buffers needed to resample a `width` by `height` raster to
/// `new_w` by `new_h` are non-empty and can be addressed on this machine.
pub open spec fn can_resample(width: int, height: int, new_w: int, new_h: int) -> bool {
    &&& width > 0
    &&& height > 0
    &&& new_w > 0
    &&& new_h > 0
    &&& 4 * width * new_h <= usize::MAX
    &&& 4 * new_w * new_h <= usize::MAX
}

/// Resamples `img` to `new_width` by `new_height` pixels with the Lanczos3
/// filter. Returns `None` where a dimension is zero or a buffer would be
/// larger than the address space; shrinking a raster never is.
pub fn resample(img: &Raster, new_width: u32, new_height: u32) -> (out: Option<Raster>)
    ensures
        out.is_some() <==> can_resample(
            img@.width as int,
            img@.height as int,
            new_width as int,
            new_height as int,
        ),
        out matches Some(scaled) ==> resampled(img@, new_width as int, new_height as int, scaled@),
        (0 < new_width <= img@.width && 0 < new_height <= img@.height) ==> out.is_some(),
{
    let width: u32 = img.width();
    let height: u32 = img.height();
    let source: &Vec<u8> = img.as_raw();
    proof {
        assert(source@.len() == source.len());
        let (w, h, nw, nh) = (width as int, height as int, new_width as int, new_height as int);
        assert(4 * w * nh == 4 * (w * nh) && 4 * nw * nh == 4 * (nw * nh) && 0 <= w * nh
            <= 0xffff_ffff * 0xffff_ffff && 0 <= nw * nh <= 0xffff_ffff * 0xffff_ffff)
            by (nonlinear_arith)
            requires
                0 <= w <= 0xffff_ffff,
                0 <= nw <= 0xffff_ffff,
                0 <= nh <= 0xffff_ffff,
        ;
        if 0 < nw <= w && 0 < nh <= h {
            assert(4 * w * nh <= 4 * w * h && 4 * nw * nh <= 4 * w * h) by (nonlinear_arith)
                requires
                    0 < nw <= w,
                    0 < nh <= h,
            ;
        }
    }
    if width == 0 || height == 0 || new_width == 0 || new_height == 0 {
        return None;
    }
    let middle: u128 = 4 * ((width as u128) * (new_height as u128));
    let target: u128 = 4 * ((new_width as u128) * (new_height as u128));
    if middle > usize::MAX as u128 || target > usize::MAX as u128 {
        return None;
    }
    let samples: Vec<u8> = resize_lanczos3(width, height, source, new_width, new_height);
    let ghost raw = samples@;
    let out = Raster::from_raw(new_width, new_height, samples);
    proof {
        assert(raw.take(raw.len() as int) =~= raw);
        if new_width == width && new_height == height {
            assert(out.unwrap()@ == img@);
        }
    }
    out
}

} // verus!
