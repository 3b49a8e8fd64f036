//! Linear and radial two-colour gradients, computed in exact integer arithmetic.
use vstd::prelude::*;

use crate::pixels::{
    buffer_len, fits, lemma_byte_of_pixel, px_c, px_index, px_x, px_y, solid_pixels, Color,
    PixelBuffer, WallpaperError,
};

verus! {

/// Channel value at diagonal distance `d` of a linear gradient over `tot` steps:
/// `to * t + from * (1 - t)` with `t = d / tot`, truncated.
pub open spec fn linear_channel(from: int, to: int, d: int, tot: int) -> int {
    (to * d + from * (tot - d)) / tot
}

/// The bytes of a `w` by `h` linear gradient from `from` to `to`.
pub open spec fn linear_pixels(w: int, h: int, from: Color, to: Color) -> Seq<u8> {
    Seq::new(
        buffer_len(w, h) as nat,
        |k: int|
            linear_channel(from[px_c(k)] as int, to[px_c(k)] as int, px_x(k, w) + px_y(k, w), w + h)
                as u8,
    )
}

/// `r` is the integer square root of `n`.
pub open spec fn is_isqrt(n: int, r: int) -> bool {
    0 <= r && r * r <= n && n < (r + 1) * (r + 1)
}

/// The integer square root of `n`, for `n >= 0`.
pub open spec fn isqrt(n: int) -> int {
    choose|r: int| is_isqrt(n, r)
}

/// Distance from the origin to `(dx, dy)`, in units of 2^-32 pixel, rounded down.
pub open spec fn dist_fixed(dx: int, dy: int) -> int {
    isqrt(0x1_0000_0000_0000_0000 * (dx * dx + dy * dy))
}

/// `v` truncated into the range of a byte.
pub open spec fn clamp_byte(v: int) -> int {
    if v < 0 {
        0
    } else if v > 255 {
        255
    } else {
        v
    }
}

/// Channel value of a radial gradient from `inner` to `outer`, at distance `d` from the
/// centre, where the ramp starts at distance `f` and reaches `outer` at distance `m`.
/// Values beyond the ramp are extrapolated and then saturate at the byte range.
pub open spec fn radial_channel(inner: int, outer: int, d: int, f: int, m: int) -> int {
    clamp_byte((inner * (m - f) + (outer - inner) * (d - f)) / (m - f))
}

/// Distance, in units of 2^-32 pixel, from the canvas centre to its top-left corner.
pub open spec fn radial_extent(w: int, h: int) -> int {
    dist_fixed(w / 2, h / 2)
}

/// Where the ramp of a radial gradient starts: half the foreground size, in units of 2^-32
/// pixel.
pub open spec fn radial_start(foreground_size: int) -> int {
    0x1_0000_0000 * (foreground_size / 2)
}

/// The canvas centre lies strictly farther from the corner than half the foreground size, so
/// that the ramp of a radial gradient has room.
pub open spec fn radial_room(w: int, h: int, foreground_size: int) -> bool {
    (w / 2) * (w / 2) + (h / 2) * (h / 2) > (foreground_size / 2) * (foreground_size / 2)
}

/// Channel `c` of pixel `(x, y)` of the radial gradient on a `w` by `h` canvas.
pub open spec fn radial_value(
    w: int,
    h: int,
    inner: Color,
    outer: Color,
    foreground_size: int,
    x: int,
    y: int,
    c: int,
) -> int {
    radial_channel(
        inner[c] as int,
        outer[c] as int,
        dist_fixed(x - w / 2, y - h / 2),
        radial_start(foreground_size),
        radial_extent(w, h),
    )
}

/// The bytes of a `w` by `h` radial gradient from `inner` to `outer` around a foreground of
/// `foreground_size`.
pub open spec fn radial_pixels(w: int, h: int, inner: Color, outer: Color, foreground_size: int) -> Seq<
    u8,
> {
    Seq::new(
        buffer_len(w, h) as nat,
        |k: int|
            radial_value(w, h, inner, outer, foreground_size, px_x(k, w), px_y(k, w), px_c(k)) as u8,
    )
}

proof fn lemma_isqrt_exists(n: int)
    requires
        n >= 0,
    ensures
        is_isqrt(n, isqrt(n)),
    decreases n,
{
    if n == 0 {
        assert(is_isqrt(0, 0));
    } else {
        lemma_isqrt_exists(n - 1);
        let r = isqrt(n - 1);
        if (r + 1) * (r + 1) <= n {
            assert(n < (r + 2) * (r + 2)) by (nonlinear_arith)
                requires n - 1 < (r + 1) * (r + 1), r >= 0;
            assert(is_isqrt(n, r + 1));
        } else {
            assert(is_isqrt(n, r));
        }
    }
}

proof fn lemma_isqrt_unique(n: int, r1: int, r2: int)
    requires
        is_isqrt(n, r1),
        is_isqrt(n, r2),
    ensures
        r1 == r2,
{
    if r1 < r2 {
        assert((r1 + 1) * (r1 + 1) <= r2 * r2) by (nonlinear_arith)
            requires 0 <= r1 < r2;
    } else if r2 < r1 {
        assert((r2 + 1) * (r2 + 1) <= r1 * r1) by (nonlinear_arith)
            requires 0 <= r2 < r1;
    }
}

/// The integer square root, found by bisection.
pub fn sqrt_floor(n: u128) -> (r: u128)
    ensures
        r == isqrt(n as int),
        is_isqrt(n as int, r as int),
        r <= u64::MAX,
{
    let mut lo: u128 = 0;
    let mut hi: u128 = 0x1_0000_0000_0000_0000;
    assert(n < hi * hi);
    while hi - lo > 1
        invariant
            lo < hi <= 0x1_0000_0000_0000_0000,
            lo * lo <= n,
            n < hi * hi,
        decreases hi - lo,
    {
        let mid: u128 = lo + (hi - lo) / 2;
        assert(mid * mid <= 0x1_0000_0000_0000_0000 * 0x1_0000_0000_0000_0000) by (nonlinear_arith)
            requires mid < 0x1_0000_0000_0000_0000;
        assert(mid * mid < 0x1_0000_0000_0000_0000 * 0x1_0000_0000_0000_0000) by (nonlinear_arith)
            requires mid < 0x1_0000_0000_0000_0000;
        if mid * mid <= n {
            lo = mid;
        } else {
            hi = mid;
        }
    }
    assert(hi == lo + 1);
    assert(is_isqrt(n as int, lo as int));
    proof {
        lemma_isqrt_unique(n as int, lo as int, isqrt(n as int));
    }
    lo
}


/// Channel value of the linear gradient for one pixel.
fn linear_byte(from: u8, to: u8, d: u64, tot: u64) -> (r: u8)
    requires
        d < tot <= 0x2_0000_0000,
    ensures
        r as int == linear_channel(from as int, to as int, d as int, tot as int),
{
    assert(to * d <= 255 * 0x2_0000_0000 && from * (tot - d) <= 255 * 0x2_0000_0000)
        by (nonlinear_arith)
        requires d < tot <= 0x2_0000_0000, to <= 255, from <= 255;
    let num: u64 = to as u64 * d + from as u64 * (tot - d);
    assert(num <= 255 * tot) by (nonlinear_arith)
        requires num == to * d + from * (tot - d), d < tot, to <= 255, from <= 255;
    assert(num / tot <= 255) by (nonlinear_arith)
        requires num <= 255 * tot, tot > 0;
    (num / tot) as u8
}

/// A linear gradient from `from_color` at the top-left corner towards `to_color` at the
/// bottom-right, along the diagonal distance `x + y` normalised by `width + height`.
pub fn linear(geometry: [u32; 2], from_color: Color, to_color: Color) -> (r: Result<
    PixelBuffer,
    WallpaperError,
>)
    requires
        fits(geometry[0] as int, geometry[1] as int),
    ensures
        (geometry[0] == 0 || geometry[1] == 0) <==> r.is_err(),
        r.is_err() ==> r == Err::<PixelBuffer, WallpaperError>(WallpaperError::InvalidGeometry),
        r.is_ok() ==> {
            let img = r.unwrap();
            &&& img.wf()
            &&& img.width == geometry[0]
            &&& img.height == geometry[1]
            &&& img.data@ == linear_pixels(geometry[0] as int, geometry[1] as int, from_color, to_color)
        },
{
    let w = geometry[0];
    let h = geometry[1];
    if w == 0 || h == 0 {
        return Err(WallpaperError::InvalidGeometry);
    }
    let tot: u64 = w as u64 + h as u64;
    let n: usize = (w as usize) * (h as usize);
    let mut data: Vec<u8> = Vec::with_capacity(n * 3);
    let mut p: usize = 0;
    while p < n
        invariant
            w > 0,
            h > 0,
            n == w * h,
            n * 3 <= usize::MAX,
            tot == w + h,
            p <= n,
            data@.len() == 3 * p,
            forall|k: int|
                0 <= k < data@.len() ==> #[trigger] data@[k] as int == linear_channel(
                    from_color[px_c(k)] as int,
                    to_color[px_c(k)] as int,
                    px_x(k, w as int) + px_y(k, w as int),
                    tot as int,
                ),
        decreases n - p,
    {
        let x: u64 = (p % (w as usize)) as u64;
        let y: u64 = (p / (w as usize)) as u64;
        assert(y < h) by (nonlinear_arith)
            requires y == (p as int) / (w as int), p < w * h, w > 0;
        let d: u64 = x + y;
        let ghost len0 = data@.len() as int;
        let ghost pi = p as int;
        assert((3 * pi) / 3 == pi && (3 * pi + 1) / 3 == pi && (3 * pi + 2) / 3 == pi);
        assert((3 * pi) % 3 == 0 && (3 * pi + 1) % 3 == 1 && (3 * pi + 2) % 3 == 2);
        data.push(linear_byte(from_color[0], to_color[0], d, tot));
        data.push(linear_byte(from_color[1], to_color[1], d, tot));
        data.push(linear_byte(from_color[2], to_color[2], d, tot));
        p = p + 1;
    }
    assert(data@ =~= linear_pixels(w as int, h as int, from_color, to_color));
    Ok(PixelBuffer { width: w, height: h, data })
}


/// Distance from the origin to `(dx, dy)` in units of 2^-32 pixel.
fn distance_fixed(dx: i64, dy: i64) -> (r: u128)
    requires
        -0x8000_0000 < dx < 0x8000_0000,
        -0x8000_0000 < dy < 0x8000_0000,
    ensures
        r as int == dist_fixed(dx as int, dy as int),
        is_isqrt(0x1_0000_0000_0000_0000 * (dx * dx + dy * dy), r as int),
        r <= u64::MAX,
{
    let x = dx as i128;
    let y = dy as i128;
    assert(x * x < 0x8000_0000 * 0x8000_0000 && y * y < 0x8000_0000 * 0x8000_0000)
        by (nonlinear_arith)
        requires -0x8000_0000 < x < 0x8000_0000, -0x8000_0000 < y < 0x8000_0000;
    assert(x * x >= 0 && y * y >= 0) by (nonlinear_arith);
    let sq: u128 = (x * x + y * y) as u128;
    assert(sq * 0x1_0000_0000_0000_0000 < 0x8000_0000_0000_0000 * 0x1_0000_0000_0000_0000)
        by (nonlinear_arith)
        requires sq < 0x8000_0000_0000_0000;
    sqrt_floor(sq * 0x1_0000_0000_0000_0000)
}

/// Where the ramp has room, its extent lies strictly beyond its start even after distances
/// are rounded down to the fixed-point unit: the unit 2^-32 is finer than the gap between
/// `sqrt(c)` and `f` whenever `c > f * f` and `f < 2^31`.
proof fn lemma_room_gives_positive_ramp(c: int, f: int, r: int)
    requires
        0 <= f < 0x8000_0000,
        c > f * f,
        is_isqrt(0x1_0000_0000_0000_0000 * c, r),
    ensures
        r > 0x1_0000_0000 * f,
{
    let s = 0x1_0000_0000int;
    let sf = s * f;
    if r <= sf {
        assert((r + 1) * (r + 1) <= (sf + 1) * (sf + 1)) by (nonlinear_arith)
            requires 0 <= r <= sf;
        assert(s * s * c >= s * s * (f * f + 1)) by (nonlinear_arith)
            requires c >= f * f + 1, s > 0;
        assert(s * s * (f * f + 1) >= (sf + 1) * (sf + 1)) by (nonlinear_arith)
            requires sf == s * f, s >= 2 * f + 1, f >= 0;
        assert(0x1_0000_0000_0000_0000 * c == s * s * c);
    }
}

/// Channel value of the radial gradient for one pixel.
fn radial_byte(inner: u8, outer: u8, d: u128, f: u128, m: u128) -> (r: u8)
    requires
        d <= u64::MAX,
        f < m <= u64::MAX,
    ensures
        r as int == radial_channel(inner as int, outer as int, d as int, f as int, m as int),
{
    let den: i128 = (m - f) as i128;
    let a: i128 = inner as i128;
    let b: i128 = outer as i128;
    let step: i128 = d as i128 - f as i128;
    assert(-256 * 0x1_0000_0000_0000_0000 <= (b - a) * step <= 256 * 0x1_0000_0000_0000_0000
        && 0 <= a * den <= 256 * 0x1_0000_0000_0000_0000) by (nonlinear_arith)
        requires
            -255 <= b - a <= 255,
            -0x1_0000_0000_0000_0000 <= step <= 0x1_0000_0000_0000_0000,
            0 <= a <= 255,
            0 < den <= 0x1_0000_0000_0000_0000;
    let num: i128 = a * den + (b - a) * step;
    if num < 0 {
        assert((num as int) / (den as int) < 0) by (nonlinear_arith)
            requires num < 0, den > 0;
        0
    } else {
        let q: u128 = (num as u128) / (den as u128);
        if q > 255 {
            255
        } else {
            q as u8
        }
    }
}

/// A radial gradient from `inner_color` around the canvas centre to `outer_color` at the
/// corners. The ramp starts at half of `foreground_size` from the centre, so that the inner
/// colour meets the edge of a foreground of that size placed in the middle. Distances are
/// measured in units of 2^-32 pixel. A canvas whose centre is no farther from its corner
/// than half the foreground size leaves the ramp no room: that is an `InvalidGeometry`.
pub fn radial(geometry: [u32; 2], inner_color: Color, outer_color: Color, foreground_size: u32) -> (r:
    Result<PixelBuffer, WallpaperError>)
    requires
        fits(geometry[0] as int, geometry[1] as int),
    ensures
        (geometry[0] == 0 || geometry[1] == 0 || !radial_room(
            geometry[0] as int,
            geometry[1] as int,
            foreground_size as int,
        )) <==> r.is_err(),
        r.is_err() ==> r == Err::<PixelBuffer, WallpaperError>(WallpaperError::InvalidGeometry),
        r.is_ok() ==> {
            let img = r.unwrap();
            &&& img.wf()
            &&& img.width == geometry[0]
            &&& img.height == geometry[1]
            &&& img.data@ == radial_pixels(
                geometry[0] as int,
                geometry[1] as int,
                inner_color,
                outer_color,
                foreground_size as int,
            )
        },
{
    let w = geometry[0];
    let h = geometry[1];
    if w == 0 || h == 0 {
        return Err(WallpaperError::InvalidGeometry);
    }
    let cx: i64 = (w / 2) as i64;
    let cy: i64 = (h / 2) as i64;
    let half_size: u128 = (foreground_size / 2) as u128;
    assert((cx as int) * (cx as int) < 0x4000_0000_0000_0000 && (cy as int) * (cy as int)
        < 0x4000_0000_0000_0000) by (nonlinear_arith)
        requires 0 <= cx < 0x8000_0000, 0 <= cy < 0x8000_0000;
    let c2: u128 = (cx as u128) * (cx as u128) + (cy as u128) * (cy as u128);
    assert(half_size * half_size < 0x4000_0000_0000_0000) by (nonlinear_arith)
        requires half_size < 0x8000_0000;
    if c2 <= half_size * half_size {
        return Err(WallpaperError::InvalidGeometry);
    }
    let m: u128 = distance_fixed(cx, cy);
    let f: u128 = 0x1_0000_0000 * half_size;
    proof {
        lemma_room_gives_positive_ramp(c2 as int, half_size as int, m as int);
    }
    let n: usize = (w as usize) * (h as usize);
    let mut data: Vec<u8> = Vec::with_capacity(n * 3);
    let mut p: usize = 0;
    while p < n
        invariant
            w > 0,
            h > 0,
            n == w * h,
            n * 3 <= usize::MAX,
            cx == w / 2,
            cy == h / 2,
            m as int == radial_extent(w as int, h as int),
            f as int == radial_start(foreground_size as int),
            f < m <= u64::MAX,
            p <= n,
            data@.len() == 3 * p,
            forall|k: int|
                0 <= k < data@.len() ==> #[trigger] data@[k] as int == radial_value(
                    w as int,
                    h as int,
                    inner_color,
                    outer_color,
                    foreground_size as int,
                    px_x(k, w as int),
                    px_y(k, w as int),
                    px_c(k),
                ),
        decreases n - p,
    {
        let x: i64 = (p % (w as usize)) as i64;
        let y: i64 = (p / (w as usize)) as i64;
        assert(y < h) by (nonlinear_arith)
            requires y == (p as int) / (w as int), p < w * h, w > 0;
        let d: u128 = distance_fixed(x - cx, y - cy);
        let ghost pi = p as int;
        assert((3 * pi) / 3 == pi && (3 * pi + 1) / 3 == pi && (3 * pi + 2) / 3 == pi);
        assert((3 * pi) % 3 == 0 && (3 * pi + 1) % 3 == 1 && (3 * pi + 2) % 3 == 2);
        data.push(radial_byte(inner_color[0], outer_color[0], d, f, m));
        data.push(radial_byte(inner_color[1], outer_color[1], d, f, m));
        data.push(radial_byte(inner_color[2], outer_color[2], d, f, m));
        p = p + 1;
    }
    assert(data@ =~= radial_pixels(w as int, h as int, inner_color, outer_color, foreground_size as int));
    Ok(PixelBuffer { width: w, height: h, data })
}


/// A linear gradient whose two end colours are equal is the solid fill of that colour.
pub proof fn linear_equal_endpoints_is_solid(geometry: [u32; 2], color: Color)
    requires
        geometry[0] > 0,
        geometry[1] > 0,
    ensures
        linear_pixels(geometry[0] as int, geometry[1] as int, color, color) == solid_pixels(
            geometry[0] as int,
            geometry[1] as int,
            color,
        ),
{
    let w = geometry[0] as int;
    let h = geometry[1] as int;
    let tot = w + h;
    let lin = linear_pixels(w, h, color, color);
    let fill = solid_pixels(w, h, color);
    assert forall|k: int| 0 <= k < fill.len() implies #[trigger] lin[k] == fill[k] by {
        let v = color[px_c(k)] as int;
        let d = px_x(k, w) + px_y(k, w);
        assert(v * d + v * (tot - d) == v * tot) by (nonlinear_arith);
        assert((v * tot) / tot == v) by (nonlinear_arith)
            requires tot > 0;
    }
    assert(lin =~= fill);
}

/// At the exact centre of any canvas with a side of at least two pixels, with no foreground
/// to leave room for, a radial gradient succeeds and has its inner colour there.
pub proof fn radial_center_is_inner(geometry: [u32; 2], inner_color: Color, outer_color: Color)
    requires
        geometry[0] > 0,
        geometry[1] > 0,
        geometry[0] >= 2 || geometry[1] >= 2,
    ensures
        radial_room(geometry[0] as int, geometry[1] as int, 0),
        forall|c: int|
            0 <= c < 3 ==> #[trigger] radial_pixels(
                geometry[0] as int,
                geometry[1] as int,
                inner_color,
                outer_color,
                0,
            )[px_index(geometry[0] as int / 2, geometry[1] as int / 2, c, geometry[0] as int)]
                == inner_color[c],
{
    let w = geometry[0] as int;
    let h = geometry[1] as int;
    assert(is_isqrt(0, 0));
    let m = radial_extent(w, h);
    let c = (w / 2) * (w / 2) + (h / 2) * (h / 2);
    assert(c > 0) by (nonlinear_arith)
        requires c == (w / 2) * (w / 2) + (h / 2) * (h / 2), w / 2 >= 1 || h / 2 >= 1, w / 2 >= 0,
            h / 2 >= 0;
    lemma_isqrt_exists(0x1_0000_0000_0000_0000 * c);
    lemma_room_gives_positive_ramp(c, 0, m);
    assert(dist_fixed(0, 0) == 0) by {
        lemma_isqrt_unique(0, 0, isqrt(0));
    }
    assert forall|c: int| 0 <= c < 3 implies #[trigger] radial_pixels(
        w,
        h,
        inner_color,
        outer_color,
        0,
    )[px_index(w / 2, h / 2, c, w)] == inner_color[c] by {
        lemma_byte_of_pixel(w / 2, h / 2, c, w, h);
        let a = inner_color[c] as int;
        let b = outer_color[c] as int;
        assert((a * (m - 0) + (b - a) * (0 - 0)) / (m - 0) == a) by (nonlinear_arith)
            requires m > 0;
    }
}

} // verus!
