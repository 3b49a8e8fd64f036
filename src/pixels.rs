//! Tightly packed, row-major RGB24 pixel buffers.
use vstd::prelude::*;
use vstd::arithmetic::div_mod::lemma_fundamental_div_mod;

verus! {

/// An RGB colour, one byte per channel.
pub type Color = [u8; 3];

/// Why an operation refused its input.
#[derive(Debug, Clone, Copy, PartialEq, Eq, Structural)]
pub enum WallpaperError {
    /// The declared dimensions do not match the length of a buffer.
    InvalidBufferSize,
    /// A width or height is zero, or a radial gradient has no room outside the foreground.
    InvalidGeometry,
    /// The background kind is not one that can be synthesised.
    UnsupportedVariant,
}

/// An owned RGB24 image: `data` holds `width * height` pixels of three bytes, row after row.
pub struct PixelBuffer {
    pub width: u32,
    pub height: u32,
    pub data: Vec<u8>,
}

/// Column of the pixel that byte `k` belongs to, in an image `w` pixels wide.
pub open spec fn px_x(k: int, w: int) -> int {
    (k / 3) % w
}

/// Row of the pixel that byte `k` belongs to, in an image `w` pixels wide.
pub open spec fn px_y(k: int, w: int) -> int {
    (k / 3) / w
}

/// Channel (0 red, 1 green, 2 blue) that byte `k` holds.
pub open spec fn px_c(k: int) -> int {
    k % 3
}

/// Index of channel `c` of pixel `(x, y)` in an image `w` pixels wide.
pub open spec fn px_index(x: int, y: int, c: int, w: int) -> int {
    (y * w + x) * 3 + c
}

/// Byte length of a `w` by `h` image.
pub open spec fn buffer_len(w: int, h: int) -> int {
    w * h * 3
}

/// The bytes of a `w` by `h` image can be addressed.
pub open spec fn fits(w: int, h: int) -> bool {
    0 <= w && 0 <= h && w * h * 3 <= usize::MAX
}

/// A `w` by `h` image fits in memory and its pixel count in the 32 bits that the resampler
/// counts pixels with.
pub open spec fn resamplable(w: int, h: int) -> bool {
    fits(w, h) && w * h <= u32::MAX
}

/// The bytes of a `w` by `h` image filled with `color`.
pub open spec fn solid_pixels(w: int, h: int, color: Color) -> Seq<u8> {
    Seq::new(buffer_len(w, h) as nat, |k: int| color[px_c(k)])
}

/// Byte `k` of a `w` by `h` image lies in pixel `(px_x(k, w), px_y(k, w))`, which is inside
/// the image, and is channel `px_c(k)` of it.
pub proof fn lemma_pixel_of_byte(k: int, w: int, h: int)
    requires
        0 <= k < buffer_len(w, h),
        w > 0,
    ensures
        0 <= px_x(k, w) < w,
        0 <= px_y(k, w) < h,
        0 <= px_c(k) < 3,
        px_index(px_x(k, w), px_y(k, w), px_c(k), w) == k,
{
    let q = k / 3;
    lemma_fundamental_div_mod(k, 3);
    lemma_fundamental_div_mod(q, w);
    assert(q * 3 == 3 * q);
    assert((q / w) * w == w * (q / w)) by (nonlinear_arith);
    assert(q < w * h) by (nonlinear_arith)
        requires k == 3 * q + k % 3, 0 <= k % 3 < 3, k < w * h * 3;
    assert(q / w < h) by (nonlinear_arith)
        requires q < w * h, w > 0, q >= 0, q == w * (q / w) + q % w, 0 <= q % w < w;
    assert(q / w >= 0) by (nonlinear_arith)
        requires q >= 0, w > 0;
    assert(((q / w) * w + q % w) * 3 + k % 3 == k);
}

/// Pixel `(x, y)` of a `w` by `h` image is held by the bytes `px_index(x, y, c, w)`, which
/// lie inside the buffer and decode back to that pixel and channel.
pub proof fn lemma_byte_of_pixel(x: int, y: int, c: int, w: int, h: int)
    requires
        0 <= x < w,
        0 <= y < h,
        0 <= c < 3,
    ensures
        0 <= px_index(x, y, c, w) < buffer_len(w, h),
        px_x(px_index(x, y, c, w), w) == x,
        px_y(px_index(x, y, c, w), w) == y,
        px_c(px_index(x, y, c, w)) == c,
{
    let q = y * w + x;
    assert(y * w <= (h - 1) * w) by (nonlinear_arith)
        requires 0 <= y < h, w > 0;
    assert((h - 1) * w == w * h - w) by (nonlinear_arith);
    assert(0 <= y * w) by (nonlinear_arith)
        requires 0 <= y, w > 0;
    assert((q * 3 + c) / 3 == q && (q * 3 + c) % 3 == c) by (nonlinear_arith)
        requires 0 <= c < 3, q >= 0;
    assert(q / w == y && q % w == x) by (nonlinear_arith)
        requires q == y * w + x, 0 <= x < w, 0 <= y;
    assert(q * 3 + c < w * h * 3) by (nonlinear_arith)
        requires q < w * h, c < 3;
}

impl PixelBuffer {
    /// The buffer holds exactly `width * height` pixels.
    pub open spec fn wf(&self) -> bool {
        self.data@.len() == buffer_len(self.width as int, self.height as int)
    }

    /// Builds a buffer from its parts, checking that the length matches the dimensions.
    pub fn from_raw(width: u32, height: u32, data: Vec<u8>) -> (r: Result<PixelBuffer, WallpaperError>)
        ensures
            (data@.len() == buffer_len(width as int, height as int)) <==> r.is_ok(),
            r.is_ok() ==> (r.unwrap().width == width && r.unwrap().height == height
                && r.unwrap().data@ == data@),
            r.is_err() ==> r == Err::<PixelBuffer, WallpaperError>(WallpaperError::InvalidBufferSize),
    {
        let w = width as u64;
        let h = height as u64;
        let n = data.len() as u64;
        // w * h fits in u64, and so does the product with 3 unless it is far above any length.
        assert(w * h <= u32::MAX * u32::MAX) by (nonlinear_arith)
            requires w <= u32::MAX, h <= u32::MAX;
        let wh = w * h;
        if wh > n || n - wh < wh || n - wh - wh != wh {
            Err(WallpaperError::InvalidBufferSize)
        } else {
            Ok(PixelBuffer { width, height, data })
        }
    }
}

/// A buffer of the given size with every pixel set to `color`.
pub fn solid(geometry: [u32; 2], color: Color) -> (r: PixelBuffer)
    requires
        fits(geometry[0] as int, geometry[1] as int),
    ensures
        r.wf(),
        r.width == geometry[0],
        r.height == geometry[1],
        r.data@ == solid_pixels(geometry[0] as int, geometry[1] as int, color),
{
    let w = geometry[0];
    let h = geometry[1];
    let n: usize = (w as usize) * (h as usize);
    let mut data: Vec<u8> = Vec::with_capacity(n * 3);
    let mut p: usize = 0;
    while p < n
        invariant
            n == w * h,
            n * 3 <= usize::MAX,
            p <= n,
            data@.len() == 3 * p,
            forall|k: int| 0 <= k < data@.len() ==> #[trigger] data@[k] == color[px_c(k)],
        decreases n - p,
    {
        data.push(color[0]);
        data.push(color[1]);
        data.push(color[2]);
        p = p + 1;
    }
    assert(data@ =~= solid_pixels(w as int, h as int, color));
    PixelBuffer { width: w, height: h, data }
}

} // verus!
