//! Aspect-correct Lanczos resampling: the source is cropped around its centre to the target
//! aspect ratio, then scaled to fill the target exactly.
use vstd::prelude::*;

use fast_image_resize as fr;
use std::num::NonZeroU32;

use crate::pixels::{buffer_len, resamplable, PixelBuffer, WallpaperError};

verus! {

/// Largest side that the resampler is given. The crop box is computed in single precision;
/// up to this side every quantity in that computation stays within a quarter pixel of its
/// exact value, so the rounded crop box is nonempty and lies inside the source.
pub const MAX_RESAMPLE_SIDE: u32 = 1048576;

/// A `width` by `height` image can be resampled to `new_width` by `new_height`: no side is
/// zero or above `MAX_RESAMPLE_SIDE`, and the centred crop of the source that has the
/// target's aspect ratio is at least one pixel in each direction.
pub open spec fn resize_ok(width: int, height: int, new_width: int, new_height: int) -> bool {
    &&& 0 < width <= MAX_RESAMPLE_SIDE
    &&& 0 < height <= MAX_RESAMPLE_SIDE
    &&& 0 < new_width <= MAX_RESAMPLE_SIDE
    &&& 0 < new_height <= MAX_RESAMPLE_SIDE
    &&& new_width * height >= new_height
    &&& new_height * width >= new_width
}

/// The pixels that Lanczos-3 resampling of the centred crop of a `width` by `height` image
/// yields at `new_width` by `new_height`.
pub uninterp spec fn lanczos_fit(
    pixels: Seq<u8>,
    width: nat,
    height: nat,
    new_width: nat,
    new_height: nat,
) -> Seq<u8>;

/// Relies on fast_image_resize: `ImageView::set_crop_box_to_fit_dst_size` with no centring
/// given crops the source around its centre to the target's aspect ratio, and
/// `Resizer::resize` with `Convolution(Lanczos3)` fills the destination image, whose buffer
/// `Image::new` made `new_width * new_height` RGB pixels long. `set_crop_box_to_fit_dst_size`
/// unwraps a nonzero crop size and a crop box inside the source: `resize_ok` keeps the exact
/// crop at least a pixel wide and every side small enough for its f32 arithmetic, and `Image`
/// counts pixels in a `u32`, which `resamplable` bounds. The output depends on the
/// arguments alone: the crate's tests hold every CPU extension to the same checksums.
#[verifier::external_body]
fn resize_image_with_cropping(
    pixels: &Vec<u8>,
    width: u32,
    height: u32,
    new_width: u32,
    new_height: u32,
) -> (r: Vec<u8>)
    requires
        resize_ok(width as int, height as int, new_width as int, new_height as int),
        resamplable(width as int, height as int),
        resamplable(new_width as int, new_height as int),
        pixels@.len() == buffer_len(width as int, height as int),
    ensures
        r@ == lanczos_fit(pixels@, width as nat, height as nat, new_width as nat, new_height as nat),
        r@.len() == buffer_len(new_width as int, new_height as int),
{
    let (w, h) = (NonZeroU32::new(width).unwrap(), NonZeroU32::new(height).unwrap());
    let (nw, nh) = (NonZeroU32::new(new_width).unwrap(), NonZeroU32::new(new_height).unwrap());
    let src = fr::Image::from_vec_u8(w, h, pixels.clone(), fr::PixelType::U8x3).unwrap();
    let mut src_view = src.view();
    src_view.set_crop_box_to_fit_dst_size(nw, nh, None);
    let mut dst = fr::Image::new(nw, nh, fr::PixelType::U8x3);
    let mut resizer = fr::Resizer::new(fr::ResizeAlg::Convolution(fr::FilterType::Lanczos3));
    resizer.resize(&src_view, &mut dst.view_mut()).unwrap();
    dst.into_vec()
}

/// Resamples `img` to `nwidth` by `nheight`, cropping the source around its centre so that
/// nothing is distorted. A zero side, a side above `MAX_RESAMPLE_SIDE`, or a target so much
/// narrower or flatter than the source that its crop would be under a pixel, is an
/// `InvalidGeometry`.
pub fn fast_resize(img: &PixelBuffer, nwidth: u32, nheight: u32) -> (r: Result<
    PixelBuffer,
    WallpaperError,
>)
    requires
        img.wf(),
        resamplable(img.width as int, img.height as int),
        resamplable(nwidth as int, nheight as int),
    ensures
        !resize_ok(img.width as int, img.height as int, nwidth as int, nheight as int) <==> r.is_err(),
        r.is_err() ==> r == Err::<PixelBuffer, WallpaperError>(WallpaperError::InvalidGeometry),
        r.is_ok() ==> {
            let out = r.unwrap();
            &&& out.wf()
            &&& out.width == nwidth
            &&& out.height == nheight
            &&& out.data@ == lanczos_fit(
                img.data@,
                img.width as nat,
                img.height as nat,
                nwidth as nat,
                nheight as nat,
            )
        },
{
    let (w, h) = (img.width as u64, img.height as u64);
    let (nw, nh) = (nwidth as u64, nheight as u64);
    if w == 0 || h == 0 || nw == 0 || nh == 0 || w > MAX_RESAMPLE_SIDE as u64 || h
        > MAX_RESAMPLE_SIDE as u64 || nw > MAX_RESAMPLE_SIDE as u64 || nh > MAX_RESAMPLE_SIDE as u64
    {
        return Err(WallpaperError::InvalidGeometry);
    }
    assert(nw * h <= 0x10_0000 * 0x10_0000 && nh * w <= 0x10_0000 * 0x10_0000) by (nonlinear_arith)
        requires nw <= 0x10_0000, h <= 0x10_0000, nh <= 0x10_0000, w <= 0x10_0000;
    if nw * h < nh || nh * w < nw {
        return Err(WallpaperError::InvalidGeometry);
    }
    let data = resize_image_with_cropping(&img.data, img.width, img.height, nwidth, nheight);
    Ok(PixelBuffer { width: nwidth, height: nheight, data })
}

} // verus!
