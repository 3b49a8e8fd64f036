//! Centred compositing of a background and a foreground onto a display-sized canvas. The
//! compositor performs no scaling: only offset arithmetic and copies, clipped at the edges.
use vstd::prelude::*;

use crate::pixels::{
    buffer_len, fits, lemma_byte_of_pixel, lemma_pixel_of_byte, px_c, px_index, px_x, px_y,
    solid, solid_pixels, Color, PixelBuffer,
};

verus! {

/// The bytes of `bottom`, a `bw` pixels wide image, after `top`, `tw` by `th`, is copied over
/// it with its top-left corner at `(x, y)`. What falls outside `bottom` is clipped.
pub open spec fn overlay_pixels(
    bottom: Seq<u8>,
    bw: int,
    top: Seq<u8>,
    tw: int,
    th: int,
    x: int,
    y: int,
) -> Seq<u8> {
    Seq::new(
        bottom.len(),
        |k: int|
            {
                let tx = px_x(k, bw) - x;
                let ty = px_y(k, bw) - y;
                if 0 <= tx < tw && 0 <= ty < th {
                    top[px_index(tx, ty, px_c(k), tw)]
                } else {
                    bottom[k]
                }
            },
    )
}

/// Half of `v`, rounded toward zero.
pub open spec fn half(v: int) -> int {
    if v >= 0 {
        v / 2
    } else {
        -((-v) / 2)
    }
}

/// Relies on image::imageops::overlay: it copies each pixel of `top` that falls inside
/// `bottom` when `top`'s corner is put at `(x, y)`, clipping the rest; for RGB pixels
/// `blend` replaces the pixel below. `RgbImage::from_raw` accepts buffers whose length is
/// the product of the dimensions, and `into_raw` hands that buffer back.
#[verifier::external_body]
fn overlay(bottom: &mut PixelBuffer, top: &PixelBuffer, x: i64, y: i64)
    requires
        old(bottom).wf(),
        top.wf(),
    ensures
        final(bottom).width == old(bottom).width,
        final(bottom).height == old(bottom).height,
        final(bottom).data@ == overlay_pixels(
            old(bottom).data@,
            old(bottom).width as int,
            top.data@,
            top.width as int,
            top.height as int,
            x as int,
            y as int,
        ),
{
    let raw = std::mem::take(&mut bottom.data);
    let mut base = image::RgbImage::from_raw(bottom.width, bottom.height, raw).unwrap();
    let layer = image::RgbImage::from_raw(top.width, top.height, top.data.clone()).unwrap();
    image::imageops::overlay(&mut base, &layer, x, y);
    bottom.data = base.into_raw();
}

fn half_toward_zero(v: i64) -> (r: i64)
    requires
        v > i64::MIN,
    ensures
        r == half(v as int),
{
    if v >= 0 {
        v / 2
    } else {
        -((-v) / 2)
    }
}

/// Where an image of `width` by `height` goes so that it is centred on the display.
pub fn background_offset(display_geometry: [u32; 2], width: u32, height: u32) -> (r: (i64, i64))
    ensures
        r.0 == half(display_geometry[0] - width),
        r.1 == half(display_geometry[1] - height),
{
    (
        half_toward_zero(display_geometry[0] as i64 - width as i64),
        half_toward_zero(display_geometry[1] as i64 - height as i64),
    )
}

/// Where an image of `width` by `height` goes so that it is centred in the available area
/// `[width, height, x_offset, y_offset]` of the display.
pub fn foreground_offset(available_geometry: [u32; 4], width: u32, height: u32) -> (r: (i64, i64))
    ensures
        r.0 == half(available_geometry[0] - width) + available_geometry[2],
        r.1 == half(available_geometry[1] - height) + available_geometry[3],
{
    (
        half_toward_zero(available_geometry[0] as i64 - width as i64) + available_geometry[2] as i64,
        half_toward_zero(available_geometry[1] as i64 - height as i64) + available_geometry[3] as i64,
    )
}

/// The bytes of the canvas that `paste_images` returns, for a background of `bw` by `bh`
/// holding `bg`, and a foreground given as its bytes, width and height.
pub open spec fn composite_pixels(
    bg: Seq<u8>,
    bw: int,
    bh: int,
    foreground: Option<(Seq<u8>, int, int)>,
    display_geometry: [u32; 2],
    available_geometry: [u32; 4],
) -> Seq<u8> {
    let dw = display_geometry[0] as int;
    let dh = display_geometry[1] as int;
    let base = overlay_pixels(
        solid_pixels(dw, dh, [0u8, 0u8, 0u8]),
        dw,
        bg,
        bw,
        bh,
        half(dw - bw),
        half(dh - bh),
    );
    match foreground {
        None => base,
        Some((fg, fw, fh)) => overlay_pixels(
            base,
            dw,
            fg,
            fw,
            fh,
            half(available_geometry[0] - fw) + available_geometry[2],
            half(available_geometry[1] - fh) + available_geometry[3],
        ),
    }
}

/// The foreground of `paste_images` as bytes and dimensions.
pub open spec fn layer(foreground: Option<PixelBuffer>) -> Option<(Seq<u8>, int, int)> {
    match foreground {
        None => None,
        Some(fg) => Some((fg.data@, fg.width as int, fg.height as int)),
    }
}

/// A display-sized canvas, black where nothing covers it, with `background` centred on the
/// display and `foreground`, if any, centred in the available area over it. Each copy fully
/// replaces the pixels below it and is clipped at the canvas edges.
pub fn paste_images(
    background: &PixelBuffer,
    foreground: Option<PixelBuffer>,
    display_geometry: [u32; 2],
    available_geometry: [u32; 4],
) -> (r: PixelBuffer)
    requires
        background.wf(),
        foreground matches Some(fg) ==> fg.wf(),
        fits(display_geometry[0] as int, display_geometry[1] as int),
    ensures
        r.wf(),
        r.width == display_geometry[0],
        r.height == display_geometry[1],
        r.data@ == composite_pixels(
            background.data@,
            background.width as int,
            background.height as int,
            layer(foreground),
            display_geometry,
            available_geometry,
        ),
{
    let mut base = solid(display_geometry, [0u8, 0u8, 0u8]);
    let (x, y) = background_offset(display_geometry, background.width, background.height);
    overlay(&mut base, background, x, y);
    match foreground {
        None => {},
        Some(fg) => {
            let (fx, fy) = foreground_offset(available_geometry, fg.width, fg.height);
            overlay(&mut base, &fg, fx, fy);
        },
    }
    base
}

/// Compositing a solid fill of the display, with no foreground, gives a full-canvas fill of
/// the same colour, whatever the available area.
pub proof fn composite_of_solid_is_fill(
    display_geometry: [u32; 2],
    color: Color,
    available_geometry: [u32; 4],
)
    ensures
        composite_pixels(
            solid_pixels(display_geometry[0] as int, display_geometry[1] as int, color),
            display_geometry[0] as int,
            display_geometry[1] as int,
            None,
            display_geometry,
            available_geometry,
        ) == solid_pixels(
            display_geometry[0] as int,
            display_geometry[1] as int,
            color,
        ),
{
    let w = display_geometry[0] as int;
    let h = display_geometry[1] as int;
    let fill = solid_pixels(w, h, color);
    let out = composite_pixels(fill, w, h, None, display_geometry, available_geometry);
    assert(half(0) == 0);
    if w == 0 {
        assert(fill.len() == 0);
    }
    assert forall|k: int| 0 <= k < fill.len() implies #[trigger] out[k] == fill[k] by {
        lemma_pixel_of_byte(k, w, h);
    }
    assert(out =~= fill);
}

} // verus!
