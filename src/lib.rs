//! Wallpaper synthesis: procedural backgrounds, aspect-correct resampling,
//! accent colour selection and centred compositing over RGB24 pixel buffers.

pub mod background;
pub mod colors;
pub mod compose;
pub mod gradient;
pub mod pixels;
pub mod resize;
pub mod seed;
pub mod wallpaper;
