//! Line-art rendering of raster images: a verified integer pipeline of
//! convolution, tone extraction, colorization and compositing.
//!
//! All pixel arithmetic is exact integer or fixed-point arithmetic, so every
//! stage has a precise specification: kernels are integer weights over a
//! divisor, the gradient is interpolated over rational positions, and the
//! anti-aliasing weights are fixed-point fractions. Decoding, encoding and
//! resampling are delegated to the `image` crate behind trusted wrappers
//! whose results are named in `codec`.

pub mod plane;
pub mod kernel;
pub mod convolve;
pub mod tone;
pub mod smaa;
pub mod color;
pub mod watermark;
pub mod codec;
pub mod mime;
pub mod pipeline;
pub mod grid;

pub use mime::detect_mime;
pub use pipeline::{one_last_image_with_config, OLIConfig};
