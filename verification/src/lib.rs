//! Pixel byte-layout conversions (channel order, channel count, alpha),
//! verified down to the byte level.
//!
//! The crate operates on raw byte buffers plus geometry: either a contiguous
//! buffer whose length is a multiple of the pixel size, or a multi-row buffer
//! described by width, height and stride. Every public operation validates
//! the geometry first and touches no byte on failure; on success the exact
//! byte-level result is stated in its contract.
//!
//! # Naming convention
//!
//! All functions follow the pattern `{src}_to_{dst}` for copy operations and
//! `{src}_to_{dst}_inplace` for in-place mutations. Append `_strided` for
//! multi-row buffers with stride. Symmetric conversions exist under both
//! names; the alias forwards to the one canonical implementation.
//!
//! # Strides
//!
//! A stride (also called "pitch") is the distance in bytes between the
//! start of one row and the start of the next. When `stride` exceeds the
//! active row width, the gap at the end of each row is padding — it is
//! never read and never written, and the contracts say so.
//!
//! The required buffer length for a strided image is
//! `(height - 1) * stride + width * bytes_per_pixel`. All `_strided`
//! functions take dimensions before strides: `(buf, width, height, stride)`
//! in place, `(src, dst, width, height, src_stride, dst_stride)` for
//! copies.
//!
//! # Modules
//!
//! - [`bytes`] — the public conversion surface on `&[u8]` buffers.
//! - [`check`] — the geometry validation every conversion runs first.
//! - [`caps`] — capability tiers and the runtime probe.
//! - [`kernels`] — the row kernels the surface dispatches to.
//! - [`wide`] — the wide tier's 64-bit-register chunk kernels.
//! - [`pixel`] — the byte-level specifications and the laws proved of
//!   them.

use vstd::prelude::*;

pub mod bytes;
pub mod caps;
pub mod check;
pub mod kernels;
pub mod pixel;
pub mod wide;

pub use bytes::bgr_to_bgra;
pub use bytes::bgr_to_bgra_strided;
pub use bytes::bgr_to_rgb;
pub use bytes::bgr_to_rgb_inplace;
pub use bytes::bgr_to_rgb_inplace_strided;
pub use bytes::bgr_to_rgb_strided;
pub use bytes::bgr_to_rgba;
pub use bytes::bgr_to_rgba_strided;
pub use bytes::bgra_to_bgr;
pub use bytes::bgra_to_bgr_strided;
pub use bytes::bgra_to_rgb;
pub use bytes::bgra_to_rgb_strided;
pub use bytes::bgra_to_rgba;
pub use bytes::bgra_to_rgba_inplace;
pub use bytes::bgra_to_rgba_inplace_strided;
pub use bytes::bgra_to_rgba_strided;
pub use bytes::fill_alpha_bgra;
pub use bytes::fill_alpha_bgra_strided;
pub use bytes::fill_alpha_rgba;
pub use bytes::fill_alpha_rgba_strided;
pub use bytes::gray_alpha_to_bgra;
pub use bytes::gray_alpha_to_bgra_strided;
pub use bytes::gray_alpha_to_rgba;
pub use bytes::gray_alpha_to_rgba_strided;
pub use bytes::gray_to_bgra;
pub use bytes::gray_to_bgra_strided;
pub use bytes::gray_to_rgba;
pub use bytes::gray_to_rgba_strided;
pub use bytes::rgb_to_bgr;
pub use bytes::rgb_to_bgr_inplace;
pub use bytes::rgb_to_bgr_inplace_strided;
pub use bytes::rgb_to_bgr_strided;
pub use bytes::rgb_to_bgra;
pub use bytes::rgb_to_bgra_strided;
pub use bytes::rgb_to_rgba;
pub use bytes::rgb_to_rgba_strided;
pub use bytes::rgba_to_bgr;
pub use bytes::rgba_to_bgr_strided;
pub use bytes::rgba_to_bgra;
pub use bytes::rgba_to_bgra_inplace;
pub use bytes::rgba_to_bgra_inplace_strided;
pub use bytes::rgba_to_bgra_strided;
pub use bytes::rgba_to_rgb;
pub use bytes::rgba_to_rgb_strided;
pub use caps::Caps;
pub use caps::Tier;
pub use check::check_copy;
pub use check::check_dims;
pub use check::check_inplace;
pub use check::check_strided;

verus! {

/// Pixel buffer size or alignment error.
///
/// Returned when a buffer's length is not a multiple of the pixel size,
/// a destination buffer is too small, or stride and dimensions are
/// inconsistent.
#[derive(Debug, Clone, Copy, PartialEq, Eq, Structural)]
pub enum SizeError {
    /// Buffer length is not a multiple of the expected bytes per pixel
    /// (or is empty).
    NotPixelAligned,
    /// Destination buffer has fewer pixels than the source.
    PixelCountMismatch,
    /// Stride, dimensions, or total buffer size are inconsistent.
    InvalidStride,
}

} // verus!
