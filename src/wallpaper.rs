//! The whole wallpaper: a background of one of the supported kinds, with the artwork resized
//! and centred in the available area over it.
use vstd::prelude::*;

use crate::compose::{composite_pixels, paste_images};
use crate::gradient::{linear, linear_pixels, radial, radial_pixels, radial_room};
use crate::pixels::{buffer_len, fits, resamplable, solid, solid_pixels, Color, PixelBuffer, WallpaperError};
use crate::resize::{fast_resize, lanczos_fit, resize_ok};

verus! {

/// The artwork shown in front of the background.
#[derive(Clone, PartialEq, Eq, Hash)]
pub struct Foreground {
    /// RGB24 pixels of the artwork.
    pub artwork_buffer: Vec<u8>,
    /// Width and height of the artwork.
    pub artwork_size: [u32; 2],
    /// Side of the square the artwork is resized to on the wallpaper.
    pub artwork_resize: u32,
}

/// What every wallpaper needs.
#[derive(Clone, PartialEq, Eq, Hash)]
pub struct RequiredArgs {
    /// Name of the background kind.
    pub background_type: String,
    pub foreground: Foreground,
    /// Width and height of the display.
    pub display_geometry: [u32; 2],
    /// Width, height, x offset and y offset of the part of the display the artwork is
    /// centred in.
    pub available_geometry: [u32; 4],
}

/// What some background kinds need.
#[derive(Clone, PartialEq, Eq, Hash)]
pub struct OptionalArgs {
    pub blur_radius: Option<u32>,
    pub color1: Option<Color>,
    pub color2: Option<Color>,
}

/// The kinds of background a wallpaper can have.
#[derive(Debug, Clone, Copy, PartialEq, Eq, Structural)]
pub enum BackgroundKind {
    DefaultWallpaper,
    Artwork,
    SolidColor,
    LinearGradient,
    RadialGradient,
    ColoredNoise,
}

/// A background, with what its kind needs to be drawn.
pub enum Background {
    /// One colour everywhere.
    SolidColor(Color),
    /// A linear gradient between two colours.
    LinearGradient(Color, Color),
    /// A radial gradient from an inner to an outer colour, around the artwork.
    RadialGradient(Color, Color),
    /// A background made elsewhere (a photograph, possibly blurred, or a noise field); it is
    /// centred on the display as it is.
    Prepared(PixelBuffer),
}

fn is_tag(tag: &String, name: &str) -> (r: bool)
    ensures
        r == (tag@ == name@),
{
    let owned = name.to_owned();
    *tag == owned
}

/// The background kind named `tag`: `DefaultWallpaper`, `Artwork`, `SolidColor`,
/// `LinearGradient`, `RadialGradient` or `ColoredNoise`. Any other name is an
/// `UnsupportedVariant`.
pub fn background_kind(tag: &String) -> (r: Result<BackgroundKind, WallpaperError>)
    ensures
        r == Ok::<BackgroundKind, WallpaperError>(BackgroundKind::DefaultWallpaper) <==> tag@
            == "DefaultWallpaper"@,
        r == Ok::<BackgroundKind, WallpaperError>(BackgroundKind::Artwork) <==> tag@ == "Artwork"@,
        r == Ok::<BackgroundKind, WallpaperError>(BackgroundKind::SolidColor) <==> tag@
            == "SolidColor"@,
        r == Ok::<BackgroundKind, WallpaperError>(BackgroundKind::LinearGradient) <==> tag@
            == "LinearGradient"@,
        r == Ok::<BackgroundKind, WallpaperError>(BackgroundKind::RadialGradient) <==> tag@
            == "RadialGradient"@,
        r == Ok::<BackgroundKind, WallpaperError>(BackgroundKind::ColoredNoise) <==> tag@
            == "ColoredNoise"@,
        r.is_err() ==> r == Err::<BackgroundKind, WallpaperError>(
            WallpaperError::UnsupportedVariant,
        ),
{
    proof {
        reveal_strlit("DefaultWallpaper");
        reveal_strlit("Artwork");
        reveal_strlit("SolidColor");
        reveal_strlit("LinearGradient");
        reveal_strlit("RadialGradient");
        reveal_strlit("ColoredNoise");
        assert("DefaultWallpaper"@.len() == 16 && "Artwork"@.len() == 7 && "SolidColor"@.len() == 10
            && "LinearGradient"@.len() == 14 && "RadialGradient"@.len() == 14
            && "ColoredNoise"@.len() == 12);
        assert("LinearGradient"@[0] != "RadialGradient"@[0]);
    }
    if is_tag(tag, "DefaultWallpaper") {
        Ok(BackgroundKind::DefaultWallpaper)
    } else if is_tag(tag, "Artwork") {
        Ok(BackgroundKind::Artwork)
    } else if is_tag(tag, "SolidColor") {
        Ok(BackgroundKind::SolidColor)
    } else if is_tag(tag, "LinearGradient") {
        Ok(BackgroundKind::LinearGradient)
    } else if is_tag(tag, "RadialGradient") {
        Ok(BackgroundKind::RadialGradient)
    } else if is_tag(tag, "ColoredNoise") {
        Ok(BackgroundKind::ColoredNoise)
    } else {
        Err(WallpaperError::UnsupportedVariant)
    }
}

/// The background can be drawn on the display, around an artwork of `foreground_size`.
pub open spec fn background_ok(bg: Background, display_geometry: [u32; 2], foreground_size: int) -> bool {
    match bg {
        Background::RadialGradient(_, _) => radial_room(
            display_geometry[0] as int,
            display_geometry[1] as int,
            foreground_size,
        ),
        _ => true,
    }
}

/// The bytes, width and height of the background drawn for the display.
pub open spec fn background_layer(bg: Background, display_geometry: [u32; 2], foreground_size: int) -> (
    Seq<u8>,
    int,
    int,
) {
    let w = display_geometry[0] as int;
    let h = display_geometry[1] as int;
    match bg {
        Background::SolidColor(c) => (solid_pixels(w, h, c), w, h),
        Background::LinearGradient(a, b) => (linear_pixels(w, h, a, b), w, h),
        Background::RadialGradient(a, b) => (radial_pixels(w, h, a, b, foreground_size), w, h),
        Background::Prepared(p) => (p.data@, p.width as int, p.height as int),
    }
}

/// Draws the background for a display of nonzero size.
fn draw_background(bg: Background, display_geometry: [u32; 2], foreground_size: u32) -> (r: Result<
    PixelBuffer,
    WallpaperError,
>)
    requires
        display_geometry[0] > 0,
        display_geometry[1] > 0,
        fits(display_geometry[0] as int, display_geometry[1] as int),
        bg matches Background::Prepared(p) ==> p.wf(),
    ensures
        r.is_ok() <==> background_ok(bg, display_geometry, foreground_size as int),
        r.is_err() ==> r == Err::<PixelBuffer, WallpaperError>(WallpaperError::InvalidGeometry),
        r.is_ok() ==> {
            let out = r.unwrap();
            let layer = background_layer(bg, display_geometry, foreground_size as int);
            &&& out.wf()
            &&& out.data@ == layer.0
            &&& out.width == layer.1
            &&& out.height == layer.2
        },
{
    match bg {
        Background::SolidColor(c) => Ok(solid(display_geometry, c)),
        Background::LinearGradient(a, b) => linear(display_geometry, a, b),
        Background::RadialGradient(a, b) => radial(display_geometry, a, b, foreground_size),
        Background::Prepared(p) => Ok(p),
    }
}

/// Everything the wallpaper needs is well formed: the artwork buffer matches its size, the
/// artwork can be resampled to its square, the display has no zero side, and a radial
/// gradient has room around the artwork.
pub open spec fn wallpaper_ok(bg: Background, foreground: Foreground, display_geometry: [u32; 2]) -> bool {
    &&& foreground.artwork_buffer@.len() == buffer_len(
        foreground.artwork_size[0] as int,
        foreground.artwork_size[1] as int,
    )
    &&& resize_ok(
        foreground.artwork_size[0] as int,
        foreground.artwork_size[1] as int,
        foreground.artwork_resize as int,
        foreground.artwork_resize as int,
    )
    &&& display_geometry[0] > 0
    &&& display_geometry[1] > 0
    &&& background_ok(bg, display_geometry, foreground.artwork_resize as int)
}

/// The wallpaper: `bg` drawn for the display and centred on it, with the artwork resized to
/// an `artwork_resize` square and centred in the available area over it. An artwork buffer
/// that does not match its size is an `InvalidBufferSize`; any other failure of
/// `wallpaper_ok` is an `InvalidGeometry`.
pub fn generate_wallpaper(
    bg: Background,
    foreground: &Foreground,
    display_geometry: [u32; 2],
    available_geometry: [u32; 4],
) -> (r: Result<PixelBuffer, WallpaperError>)
    requires
        fits(display_geometry[0] as int, display_geometry[1] as int),
        resamplable(foreground.artwork_size[0] as int, foreground.artwork_size[1] as int),
        resamplable(foreground.artwork_resize as int, foreground.artwork_resize as int),
        bg matches Background::Prepared(p) ==> p.wf(),
    ensures
        r.is_ok() <==> wallpaper_ok(bg, *foreground, display_geometry),
        r == Err::<PixelBuffer, WallpaperError>(WallpaperError::InvalidBufferSize) <==> foreground.artwork_buffer@.len()
            != buffer_len(foreground.artwork_size[0] as int, foreground.artwork_size[1] as int),
        r.is_err() ==> r == Err::<PixelBuffer, WallpaperError>(WallpaperError::InvalidBufferSize)
            || r == Err::<PixelBuffer, WallpaperError>(WallpaperError::InvalidGeometry),
        r.is_ok() ==> {
            let out = r.unwrap();
            let size = foreground.artwork_resize as int;
            let layer = background_layer(bg, display_geometry, size);
            &&& out.wf()
            &&& out.width == display_geometry[0]
            &&& out.height == display_geometry[1]
            &&& out.data@ == composite_pixels(
                layer.0,
                layer.1,
                layer.2,
                Some(
                    (
                        lanczos_fit(
                            foreground.artwork_buffer@,
                            foreground.artwork_size[0] as nat,
                            foreground.artwork_size[1] as nat,
                            size as nat,
                            size as nat,
                        ),
                        size,
                        size,
                    ),
                ),
                display_geometry,
                available_geometry,
            )
        },
{
    let artwork = match PixelBuffer::from_raw(
        foreground.artwork_size[0],
        foreground.artwork_size[1],
        foreground.artwork_buffer.clone(),
    ) {
        Ok(a) => a,
        Err(e) => return Err(e),
    };
    if display_geometry[0] == 0 || display_geometry[1] == 0 {
        return Err(WallpaperError::InvalidGeometry);
    }
    let size = foreground.artwork_resize;
    let background = match draw_background(bg, display_geometry, size) {
        Ok(b) => b,
        Err(e) => return Err(e),
    };
    let resized = match fast_resize(&artwork, size, size) {
        Ok(a) => a,
        Err(e) => return Err(e),
    };
    Ok(paste_images(&background, Some(resized), display_geometry, available_geometry))
}

} // verus!
