//! Blurred photographic backgrounds are blurred at a reduced size: the source is resampled
//! down by `BLUR_SCALE` in each direction, blurred there with the radius reduced by the same
//! factor, and resampled back up to the display. This trades blur accuracy for a speed-up of
//! about `BLUR_SCALE` squared.
use vstd::prelude::*;

use crate::pixels::{resamplable, PixelBuffer, WallpaperError};
use crate::resize::{fast_resize, lanczos_fit, resize_ok};

verus! {

/// Factor by which a blurred background is reduced before it is blurred.
pub const BLUR_SCALE: u32 = 4;

/// The reduced image that a blurred `nwidth` by `nheight` background is blurred at: `image`
/// resampled to `nwidth / BLUR_SCALE` by `nheight / BLUR_SCALE`. Where that resampling is
/// refused (an empty image, a display too small to be reduced, a crop under a pixel, a side
/// too large), this is an `InvalidGeometry`.
pub fn blur_downscale(image: &PixelBuffer, nwidth: u32, nheight: u32) -> (r: Result<
    PixelBuffer,
    WallpaperError,
>)
    requires
        image.wf(),
        resamplable(image.width as int, image.height as int),
        resamplable(nwidth as int, nheight as int),
    ensures
        !resize_ok(
            image.width as int,
            image.height as int,
            (nwidth / BLUR_SCALE) as int,
            (nheight / BLUR_SCALE) as int,
        ) <==> r.is_err(),
        r.is_err() ==> r == Err::<PixelBuffer, WallpaperError>(WallpaperError::InvalidGeometry),
        r.is_ok() ==> {
            let out = r.unwrap();
            &&& out.wf()
            &&& out.width == nwidth / BLUR_SCALE
            &&& out.height == nheight / BLUR_SCALE
            &&& out.data@ == lanczos_fit(
                image.data@,
                image.width as nat,
                image.height as nat,
                (nwidth / BLUR_SCALE) as nat,
                (nheight / BLUR_SCALE) as nat,
            )
        },
{
    let sw = nwidth / BLUR_SCALE;
    let sh = nheight / BLUR_SCALE;
    assert(sw * sh <= nwidth * nheight) by (nonlinear_arith)
        requires sw <= nwidth, sh <= nheight, sw >= 0, sh >= 0;
    fast_resize(image, sw, sh)
}

} // verus!
