//! The public conversion surface on raw `&[u8]` buffers.
//!
//! Every operation exists in four shapes: in place, copying, in place over
//! a strided image, and copying between strided images. Each validates its
//! geometry first and returns the exact error its contract names without
//! touching a byte; on success the contract gives the byte-level result.
//! Symmetric operations are exposed under both names; each alias forwards
//! to the one canonical implementation and carries the same contract, so
//! alias and canonical name are byte-identical by construction.
//!
//! The capability tier is resolved once per call and the same kernel is
//! used for the whole call (one invocation per row in the strided shapes).

use vstd::prelude::*;

use crate::SizeError;
use crate::caps::Caps;
use crate::check::check_copy;
use crate::check::check_inplace;
use crate::check::check_strided;
use crate::check::copy_ok;
use crate::check::inplace_ok;
use crate::check::strided_ok;
use crate::kernels::copy_swap3_row;
use crate::kernels::copy_swap3_rows;
use crate::kernels::copy_swap4_row;
use crate::kernels::copy_swap4_rows;
use crate::kernels::expand1to4_row;
use crate::kernels::expand1to4_rows;
use crate::kernels::expand2to4_row;
use crate::kernels::expand2to4_rows;
use crate::kernels::expand3to4_row;
use crate::kernels::expand3to4_rows;
use crate::kernels::fill4_rows;
use crate::kernels::fill_alpha_row;
use crate::kernels::strip4to3_row;
use crate::kernels::strip4to3_rows;
use crate::kernels::swap3_row;
use crate::kernels::swap3_rows;
use crate::kernels::swap4_row;
use crate::kernels::swap4_rows;
use crate::pixel::copy_swap3_region;
use crate::pixel::copy_swap3_strided_spec;
use crate::pixel::copy_swap4_region;
use crate::pixel::copy_swap4_strided_spec;
use crate::pixel::expand1to4_region;
use crate::pixel::expand1to4_spec;
use crate::pixel::expand1to4_strided_spec;
use crate::pixel::expand2to4_region;
use crate::pixel::expand2to4_spec;
use crate::pixel::expand2to4_strided_spec;
use crate::pixel::expand3to4_region;
use crate::pixel::expand3to4_spec;
use crate::pixel::expand3to4_strided_spec;
use crate::pixel::fill4_strided_spec;
use crate::pixel::fill_alpha_spec;
use crate::pixel::lemma_div_mul_le;
use crate::pixel::lemma_fill4_region_whole;
use crate::pixel::lemma_swap3_region_whole;
use crate::pixel::lemma_swap4_region_whole;
use crate::pixel::strip4to3_region;
use crate::pixel::strip4to3_spec;
use crate::pixel::strip4to3_strided_spec;
use crate::pixel::swap3_spec;
use crate::pixel::swap3_strided_spec;
use crate::pixel::swap4_spec;
use crate::pixel::swap4_strided_spec;

verus! {

// ===========================================================================
// Contiguous operations
// ===========================================================================

/// Swap B and R channels in place for 4-byte pixels (RGBA <-> BGRA).
pub fn rgba_to_bgra_inplace(buf: &mut [u8]) -> (r: Result<(), SizeError>)
    ensures
        r == Ok::<(), SizeError>(()) <==> inplace_ok(old(buf)@.len() as int, 4),
        !inplace_ok(old(buf)@.len() as int, 4) ==> r == Err::<(), SizeError>(
            SizeError::NotPixelAligned,
        ) && final(buf)@ == old(buf)@,
        r == Ok::<(), SizeError>(()) ==> final(buf)@ == swap4_spec(old(buf)@),
{
    let len = buf.len();
    match check_inplace(len, 4) {
        Err(e) => Err(e),
        Ok(_u) => {
            let caps = Caps::detect();
            proof {
                lemma_div_mul_le(len as int, 4);
            }
            swap4_row(caps, buf, 0, len / 4);
            proof {
                lemma_swap4_region_whole(old(buf)@);
            }
            Ok(())
        },
    }
}

/// Copy 4-byte pixels, swapping B and R (RGBA -> BGRA or BGRA -> RGBA).
pub fn rgba_to_bgra(src: &[u8], dst: &mut [u8]) -> (r: Result<(), SizeError>)
    ensures
        r == Ok::<(), SizeError>(()) <==> copy_ok(src@.len() as int, 4, old(dst)@.len() as int, 4),
        r == Err::<(), SizeError>(SizeError::NotPixelAligned) <==> !inplace_ok(
            src@.len() as int,
            4,
        ),
        r == Err::<(), SizeError>(SizeError::PixelCountMismatch) <==> inplace_ok(
            src@.len() as int,
            4,
        ) && old(dst)@.len() < (src@.len() as int / 4) * 4,
        !copy_ok(src@.len() as int, 4, old(dst)@.len() as int, 4) ==> final(dst)@
            == old(dst)@,
        r == Ok::<(), SizeError>(()) ==> final(dst)@ == copy_swap4_region(
            src@,
            0,
            old(dst)@,
            0,
            src@.len() as int / 4,
        ),
        r == Ok::<(), SizeError>(()) ==> final(dst)@.subrange(
            0,
            src@.len() as int,
        ) == swap4_spec(src@),
{
    match check_copy(src.len(), 4, dst.len(), 4) {
        Err(e) => Err(e),
        Ok(()) => {
            let caps = Caps::detect();
            proof {
                lemma_div_mul_le(src@.len() as int, 4);
            }
            copy_swap4_row(caps, src, dst, 0, 0, src.len() / 4);
            proof {
                assert(src@.subrange(0, src@.len() as int) =~= src@);
                assert(dst@.subrange(0, src@.len() as int) =~= swap4_spec(src@));
            }
            Ok(())
        },
    }
}

/// Set the alpha channel (byte 3) to 255 for every 4-byte pixel.
///
/// Works for any alpha-last layout (RGBA, BGRA).
pub fn fill_alpha_rgba(buf: &mut [u8]) -> (r: Result<(), SizeError>)
    ensures
        r == Ok::<(), SizeError>(()) <==> inplace_ok(old(buf)@.len() as int, 4),
        !inplace_ok(old(buf)@.len() as int, 4) ==> r == Err::<(), SizeError>(
            SizeError::NotPixelAligned,
        ) && final(buf)@ == old(buf)@,
        r == Ok::<(), SizeError>(()) ==> final(buf)@ == fill_alpha_spec(old(buf)@),
{
    let len = buf.len();
    match check_inplace(len, 4) {
        Err(e) => Err(e),
        Ok(_u) => {
            let caps = Caps::detect();
            proof {
                lemma_div_mul_le(len as int, 4);
            }
            fill_alpha_row(caps, buf, 0, len / 4);
            proof {
                lemma_fill4_region_whole(old(buf)@);
            }
            Ok(())
        },
    }
}

/// Alias for [`fill_alpha_rgba`] — byte 3 is the alpha byte in both
/// layouts, so the operation is the same.
pub fn fill_alpha_bgra(buf: &mut [u8]) -> (r: Result<(), SizeError>)
    ensures
        r == Ok::<(), SizeError>(()) <==> inplace_ok(old(buf)@.len() as int, 4),
        !inplace_ok(old(buf)@.len() as int, 4) ==> r == Err::<(), SizeError>(
            SizeError::NotPixelAligned,
        ) && final(buf)@ == old(buf)@,
        r == Ok::<(), SizeError>(()) ==> final(buf)@ == fill_alpha_spec(old(buf)@),
{
    fill_alpha_rgba(buf)
}

/// RGB (3 bytes per pixel) -> BGRA (4 bytes per pixel): channels reversed,
/// alpha set to 255.
pub fn rgb_to_bgra(src: &[u8], dst: &mut [u8]) -> (r: Result<(), SizeError>)
    ensures
        r == Ok::<(), SizeError>(()) <==> copy_ok(src@.len() as int, 3, old(dst)@.len() as int, 4),
        r == Err::<(), SizeError>(SizeError::NotPixelAligned) <==> !inplace_ok(
            src@.len() as int,
            3,
        ),
        r == Err::<(), SizeError>(SizeError::PixelCountMismatch) <==> inplace_ok(
            src@.len() as int,
            3,
        ) && old(dst)@.len() < (src@.len() as int / 3) * 4,
        !copy_ok(src@.len() as int, 3, old(dst)@.len() as int, 4) ==> final(dst)@
            == old(dst)@,
        r == Ok::<(), SizeError>(()) ==> final(dst)@ == expand3to4_region(
            src@,
            0,
            old(dst)@,
            0,
            src@.len() as int / 3,
            true,
        ),
        r == Ok::<(), SizeError>(()) ==> final(dst)@.subrange(
            0,
            src@.len() as int / 3 * 4,
        ) == expand3to4_spec(src@, true),
{
    match check_copy(src.len(), 3, dst.len(), 4) {
        Err(e) => Err(e),
        Ok(()) => {
            let caps = Caps::detect();
            proof {
                lemma_div_mul_le(src@.len() as int, 3);
            }
            expand3to4_row(caps, src, dst, 0, 0, src.len() / 3, true);
            proof {
                assert(src@.subrange(0, src@.len() as int) =~= src@);
                assert(dst@.subrange(0, src@.len() as int / 3 * 4) =~= expand3to4_spec(src@, true));
            }
            Ok(())
        },
    }
}

/// RGB (3 bytes per pixel) -> RGBA (4 bytes per pixel): channel order kept,
/// alpha set to 255.
pub fn rgb_to_rgba(src: &[u8], dst: &mut [u8]) -> (r: Result<(), SizeError>)
    ensures
        r == Ok::<(), SizeError>(()) <==> copy_ok(src@.len() as int, 3, old(dst)@.len() as int, 4),
        r == Err::<(), SizeError>(SizeError::NotPixelAligned) <==> !inplace_ok(
            src@.len() as int,
            3,
        ),
        r == Err::<(), SizeError>(SizeError::PixelCountMismatch) <==> inplace_ok(
            src@.len() as int,
            3,
        ) && old(dst)@.len() < (src@.len() as int / 3) * 4,
        !copy_ok(src@.len() as int, 3, old(dst)@.len() as int, 4) ==> final(dst)@
            == old(dst)@,
        r == Ok::<(), SizeError>(()) ==> final(dst)@ == expand3to4_region(
            src@,
            0,
            old(dst)@,
            0,
            src@.len() as int / 3,
            false,
        ),
        r == Ok::<(), SizeError>(()) ==> final(dst)@.subrange(
            0,
            src@.len() as int / 3 * 4,
        ) == expand3to4_spec(src@, false),
{
    match check_copy(src.len(), 3, dst.len(), 4) {
        Err(e) => Err(e),
        Ok(()) => {
            let caps = Caps::detect();
            proof {
                lemma_div_mul_le(src@.len() as int, 3);
            }
            expand3to4_row(caps, src, dst, 0, 0, src.len() / 3, false);
            proof {
                assert(src@.subrange(0, src@.len() as int) =~= src@);
                assert(dst@.subrange(0, src@.len() as int / 3 * 4) =~= expand3to4_spec(src@, false));
            }
            Ok(())
        },
    }
}

/// Gray (1 byte per pixel) -> RGBA/BGRA (4 bytes per pixel): R = G = B =
/// gray, alpha 255.
pub fn gray_to_rgba(src: &[u8], dst: &mut [u8]) -> (r: Result<(), SizeError>)
    ensures
        r == Ok::<(), SizeError>(()) <==> copy_ok(src@.len() as int, 1, old(dst)@.len() as int, 4),
        r == Err::<(), SizeError>(SizeError::NotPixelAligned) <==> !inplace_ok(
            src@.len() as int,
            1,
        ),
        r == Err::<(), SizeError>(SizeError::PixelCountMismatch) <==> inplace_ok(
            src@.len() as int,
            1,
        ) && old(dst)@.len() < (src@.len() as int / 1) * 4,
        !copy_ok(src@.len() as int, 1, old(dst)@.len() as int, 4) ==> final(dst)@
            == old(dst)@,
        r == Ok::<(), SizeError>(()) ==> final(dst)@ == expand1to4_region(
            src@,
            0,
            old(dst)@,
            0,
            src@.len() as int,
        ),
        r == Ok::<(), SizeError>(()) ==> final(dst)@.subrange(
            0,
            src@.len() as int * 4,
        ) == expand1to4_spec(src@),
{
    match check_copy(src.len(), 1, dst.len(), 4) {
        Err(e) => Err(e),
        Ok(()) => {
            let caps = Caps::detect();
            proof {
                lemma_div_mul_le(src@.len() as int, 1);
            }
            expand1to4_row(caps, src, dst, 0, 0, src.len());
            proof {
                assert(src@.subrange(0, src@.len() as int) =~= src@);
                assert(dst@.subrange(0, src@.len() as int * 4) =~= expand1to4_spec(src@));
            }
            Ok(())
        },
    }
}

/// GrayAlpha (2 bytes per pixel) -> RGBA/BGRA (4 bytes per pixel):
/// R = G = B = gray, alpha kept.
pub fn gray_alpha_to_rgba(src: &[u8], dst: &mut [u8]) -> (r: Result<(), SizeError>)
    ensures
        r == Ok::<(), SizeError>(()) <==> copy_ok(src@.len() as int, 2, old(dst)@.len() as int, 4),
        r == Err::<(), SizeError>(SizeError::NotPixelAligned) <==> !inplace_ok(
            src@.len() as int,
            2,
        ),
        r == Err::<(), SizeError>(SizeError::PixelCountMismatch) <==> inplace_ok(
            src@.len() as int,
            2,
        ) && old(dst)@.len() < (src@.len() as int / 2) * 4,
        !copy_ok(src@.len() as int, 2, old(dst)@.len() as int, 4) ==> final(dst)@
            == old(dst)@,
        r == Ok::<(), SizeError>(()) ==> final(dst)@ == expand2to4_region(
            src@,
            0,
            old(dst)@,
            0,
            src@.len() as int / 2,
        ),
        r == Ok::<(), SizeError>(()) ==> final(dst)@.subrange(
            0,
            src@.len() as int / 2 * 4,
        ) == expand2to4_spec(src@),
{
    match check_copy(src.len(), 2, dst.len(), 4) {
        Err(e) => Err(e),
        Ok(()) => {
            let caps = Caps::detect();
            proof {
                lemma_div_mul_le(src@.len() as int, 2);
            }
            expand2to4_row(caps, src, dst, 0, 0, src.len() / 2);
            proof {
                assert(src@.subrange(0, src@.len() as int) =~= src@);
                assert(dst@.subrange(0, src@.len() as int / 2 * 4) =~= expand2to4_spec(src@));
            }
            Ok(())
        },
    }
}

/// Swap R and B in place for 3-byte pixels (RGB <-> BGR).
pub fn rgb_to_bgr_inplace(buf: &mut [u8]) -> (r: Result<(), SizeError>)
    ensures
        r == Ok::<(), SizeError>(()) <==> inplace_ok(old(buf)@.len() as int, 3),
        !inplace_ok(old(buf)@.len() as int, 3) ==> r == Err::<(), SizeError>(
            SizeError::NotPixelAligned,
        ) && final(buf)@ == old(buf)@,
        r == Ok::<(), SizeError>(()) ==> final(buf)@ == swap3_spec(old(buf)@),
{
    let len = buf.len();
    match check_inplace(len, 3) {
        Err(e) => Err(e),
        Ok(_u) => {
            let caps = Caps::detect();
            proof {
                lemma_div_mul_le(len as int, 3);
            }
            swap3_row(caps, buf, 0, len / 3);
            proof {
                lemma_swap3_region_whole(old(buf)@);
            }
            Ok(())
        },
    }
}

/// Copy 3-byte pixels, swapping R and B (RGB -> BGR or BGR -> RGB).
pub fn rgb_to_bgr(src: &[u8], dst: &mut [u8]) -> (r: Result<(), SizeError>)
    ensures
        r == Ok::<(), SizeError>(()) <==> copy_ok(src@.len() as int, 3, old(dst)@.len() as int, 3),
        r == Err::<(), SizeError>(SizeError::NotPixelAligned) <==> !inplace_ok(
            src@.len() as int,
            3,
        ),
        r == Err::<(), SizeError>(SizeError::PixelCountMismatch) <==> inplace_ok(
            src@.len() as int,
            3,
        ) && old(dst)@.len() < (src@.len() as int / 3) * 3,
        !copy_ok(src@.len() as int, 3, old(dst)@.len() as int, 3) ==> final(dst)@
            == old(dst)@,
        r == Ok::<(), SizeError>(()) ==> final(dst)@ == copy_swap3_region(
            src@,
            0,
            old(dst)@,
            0,
            src@.len() as int / 3,
        ),
        r == Ok::<(), SizeError>(()) ==> final(dst)@.subrange(
            0,
            src@.len() as int,
        ) == swap3_spec(src@),
{
    match check_copy(src.len(), 3, dst.len(), 3) {
        Err(e) => Err(e),
        Ok(()) => {
            let caps = Caps::detect();
            proof {
                lemma_div_mul_le(src@.len() as int, 3);
            }
            copy_swap3_row(caps, src, dst, 0, 0, src.len() / 3);
            proof {
                assert(src@.subrange(0, src@.len() as int) =~= src@);
                assert(dst@.subrange(0, src@.len() as int) =~= swap3_spec(src@));
            }
            Ok(())
        },
    }
}

/// 4 bytes per pixel -> 3 bytes per pixel by dropping byte 3 (alpha);
/// channel order kept (RGBA -> RGB, BGRA -> BGR).
pub fn rgba_to_rgb(src: &[u8], dst: &mut [u8]) -> (r: Result<(), SizeError>)
    ensures
        r == Ok::<(), SizeError>(()) <==> copy_ok(src@.len() as int, 4, old(dst)@.len() as int, 3),
        r == Err::<(), SizeError>(SizeError::NotPixelAligned) <==> !inplace_ok(
            src@.len() as int,
            4,
        ),
        r == Err::<(), SizeError>(SizeError::PixelCountMismatch) <==> inplace_ok(
            src@.len() as int,
            4,
        ) && old(dst)@.len() < (src@.len() as int / 4) * 3,
        !copy_ok(src@.len() as int, 4, old(dst)@.len() as int, 3) ==> final(dst)@
            == old(dst)@,
        r == Ok::<(), SizeError>(()) ==> final(dst)@ == strip4to3_region(
            src@,
            0,
            old(dst)@,
            0,
            src@.len() as int / 4,
            false,
        ),
        r == Ok::<(), SizeError>(()) ==> final(dst)@.subrange(
            0,
            src@.len() as int / 4 * 3,
        ) == strip4to3_spec(src@, false),
{
    match check_copy(src.len(), 4, dst.len(), 3) {
        Err(e) => Err(e),
        Ok(()) => {
            let caps = Caps::detect();
            proof {
                lemma_div_mul_le(src@.len() as int, 4);
            }
            strip4to3_row(caps, src, dst, 0, 0, src.len() / 4, false);
            proof {
                assert(src@.subrange(0, src@.len() as int) =~= src@);
                assert(dst@.subrange(0, src@.len() as int / 4 * 3) =~= strip4to3_spec(src@, false));
            }
            Ok(())
        },
    }
}

/// 4 bytes per pixel -> 3 bytes per pixel, dropping alpha and reversing
/// bytes 0 and 2 (BGRA -> RGB, RGBA -> BGR).
pub fn bgra_to_rgb(src: &[u8], dst: &mut [u8]) -> (r: Result<(), SizeError>)
    ensures
        r == Ok::<(), SizeError>(()) <==> copy_ok(src@.len() as int, 4, old(dst)@.len() as int, 3),
        r == Err::<(), SizeError>(SizeError::NotPixelAligned) <==> !inplace_ok(
            src@.len() as int,
            4,
        ),
        r == Err::<(), SizeError>(SizeError::PixelCountMismatch) <==> inplace_ok(
            src@.len() as int,
            4,
        ) && old(dst)@.len() < (src@.len() as int / 4) * 3,
        !copy_ok(src@.len() as int, 4, old(dst)@.len() as int, 3) ==> final(dst)@
            == old(dst)@,
        r == Ok::<(), SizeError>(()) ==> final(dst)@ == strip4to3_region(
            src@,
            0,
            old(dst)@,
            0,
            src@.len() as int / 4,
            true,
        ),
        r == Ok::<(), SizeError>(()) ==> final(dst)@.subrange(
            0,
            src@.len() as int / 4 * 3,
        ) == strip4to3_spec(src@, true),
{
    match check_copy(src.len(), 4, dst.len(), 3) {
        Err(e) => Err(e),
        Ok(()) => {
            let caps = Caps::detect();
            proof {
                lemma_div_mul_le(src@.len() as int, 4);
            }
            strip4to3_row(caps, src, dst, 0, 0, src.len() / 4, true);
            proof {
                assert(src@.subrange(0, src@.len() as int) =~= src@);
                assert(dst@.subrange(0, src@.len() as int / 4 * 3) =~= strip4to3_spec(src@, true));
            }
            Ok(())
        },
    }
}

// ===========================================================================
// Strided operations
// ===========================================================================

/// Swap B and R in place for a strided 4-byte-pixel image (RGBA <-> BGRA).
///
/// `stride` is the distance in bytes between the starts of consecutive
/// rows; it must be at least `width * 4`, and the buffer must hold at
/// least `(height - 1) * stride + width * 4` bytes. Padding bytes between
/// rows are never read or written.
pub fn rgba_to_bgra_inplace_strided(buf: &mut [u8], width: usize, height: usize, stride: usize) -> (r: Result<
    (),
    SizeError,
>)
    ensures
        r == Ok::<(), SizeError>(()) <==> strided_ok(
            old(buf)@.len() as int,
            width as int,
            height as int,
            stride as int,
            4,
        ),
        !strided_ok(
            old(buf)@.len() as int,
            width as int,
            height as int,
            stride as int,
            4,
        ) ==> r == Err::<(), SizeError>(SizeError::InvalidStride) && final(buf)@ == old(buf)@,
        r == Ok::<(), SizeError>(()) ==> final(buf)@ == swap4_strided_spec(
            old(buf)@,
            width as int,
            height as int,
            stride as int,
        ),
{
    match check_strided(buf.len(), width, height, stride, 4) {
        Err(e) => Err(e),
        Ok(_u) => {
            let caps = Caps::detect();
            swap4_rows(caps, buf, width, height, stride);
            Ok(())
        },
    }
}

/// Copy 4-byte pixels between strided buffers, swapping B and R
/// (RGBA -> BGRA or the reverse).
///
/// `src_stride` / `dst_stride` are the distances in bytes between the
/// starts of consecutive rows in each buffer. Padding bytes between rows
/// are never read or written.
pub fn rgba_to_bgra_strided(
    src: &[u8],
    dst: &mut [u8],
    width: usize,
    height: usize,
    src_stride: usize,
    dst_stride: usize,
) -> (r: Result<(), SizeError>)
    ensures
        r == Ok::<(), SizeError>(()) <==> strided_ok(
            src@.len() as int,
            width as int,
            height as int,
            src_stride as int,
            4,
        ) && strided_ok(
            old(dst)@.len() as int,
            width as int,
            height as int,
            dst_stride as int,
            4,
        ),
        !(strided_ok(
            src@.len() as int,
            width as int,
            height as int,
            src_stride as int,
            4,
        ) && strided_ok(
            old(dst)@.len() as int,
            width as int,
            height as int,
            dst_stride as int,
            4,
        )) ==> r == Err::<(), SizeError>(SizeError::InvalidStride) && final(dst)@ == old(dst)@,
        r == Ok::<(), SizeError>(()) ==> final(dst)@ == copy_swap4_strided_spec(
            src@,
            old(dst)@,
            width as int,
            height as int,
            src_stride as int,
            dst_stride as int,
        ),
{
    match check_strided(src.len(), width, height, src_stride, 4) {
        Err(e) => {
            return Err(e);
        },
        Ok(_u) => {},
    }
    match check_strided(dst.len(), width, height, dst_stride, 4) {
        Err(e) => {
            return Err(e);
        },
        Ok(_u) => {},
    }
    let caps = Caps::detect();
    copy_swap4_rows(caps, src, dst, width, height, src_stride, dst_stride);
    Ok(())
}

/// Set alpha (byte 3) to 255 for every 4-byte pixel in a strided buffer.
///
/// Works for any alpha-last layout (RGBA, BGRA). Padding bytes between
/// rows are never read or written.
pub fn fill_alpha_rgba_strided(buf: &mut [u8], width: usize, height: usize, stride: usize) -> (r: Result<
    (),
    SizeError,
>)
    ensures
        r == Ok::<(), SizeError>(()) <==> strided_ok(
            old(buf)@.len() as int,
            width as int,
            height as int,
            stride as int,
            4,
        ),
        !strided_ok(
            old(buf)@.len() as int,
            width as int,
            height as int,
            stride as int,
            4,
        ) ==> r == Err::<(), SizeError>(SizeError::InvalidStride) && final(buf)@ == old(buf)@,
        r == Ok::<(), SizeError>(()) ==> final(buf)@ == fill4_strided_spec(
            old(buf)@,
            width as int,
            height as int,
            stride as int,
        ),
{
    match check_strided(buf.len(), width, height, stride, 4) {
        Err(e) => Err(e),
        Ok(_u) => {
            let caps = Caps::detect();
            fill4_rows(caps, buf, width, height, stride);
            Ok(())
        },
    }
}

/// RGB (3 bytes per pixel) -> BGRA (4 bytes per pixel) between strided
/// buffers: channels reversed, alpha 255. Padding bytes between rows are
/// never read or written.
pub fn rgb_to_bgra_strided(
    src: &[u8],
    dst: &mut [u8],
    width: usize,
    height: usize,
    src_stride: usize,
    dst_stride: usize,
) -> (r: Result<(), SizeError>)
    ensures
        r == Ok::<(), SizeError>(()) <==> strided_ok(
            src@.len() as int,
            width as int,
            height as int,
            src_stride as int,
            3,
        ) && strided_ok(
            old(dst)@.len() as int,
            width as int,
            height as int,
            dst_stride as int,
            4,
        ),
        !(strided_ok(
            src@.len() as int,
            width as int,
            height as int,
            src_stride as int,
            3,
        ) && strided_ok(
            old(dst)@.len() as int,
            width as int,
            height as int,
            dst_stride as int,
            4,
        )) ==> r == Err::<(), SizeError>(SizeError::InvalidStride) && final(dst)@ == old(dst)@,
        r == Ok::<(), SizeError>(()) ==> final(dst)@ == expand3to4_strided_spec(
            src@,
            old(dst)@,
            width as int,
            height as int,
            src_stride as int,
            dst_stride as int,
            true,
        ),
{
    match check_strided(src.len(), width, height, src_stride, 3) {
        Err(e) => {
            return Err(e);
        },
        Ok(_u) => {},
    }
    match check_strided(dst.len(), width, height, dst_stride, 4) {
        Err(e) => {
            return Err(e);
        },
        Ok(_u) => {},
    }
    let caps = Caps::detect();
    expand3to4_rows(caps, src, dst, width, height, src_stride, dst_stride, true);
    Ok(())
}

/// RGB (3 bytes per pixel) -> RGBA (4 bytes per pixel) between strided
/// buffers: channel order kept, alpha 255. Padding bytes between rows are
/// never read or written.
pub fn rgb_to_rgba_strided(
    src: &[u8],
    dst: &mut [u8],
    width: usize,
    height: usize,
    src_stride: usize,
    dst_stride: usize,
) -> (r: Result<(), SizeError>)
    ensures
        r == Ok::<(), SizeError>(()) <==> strided_ok(
            src@.len() as int,
            width as int,
            height as int,
            src_stride as int,
            3,
        ) && strided_ok(
            old(dst)@.len() as int,
            width as int,
            height as int,
            dst_stride as int,
            4,
        ),
        !(strided_ok(
            src@.len() as int,
            width as int,
            height as int,
            src_stride as int,
            3,
        ) && strided_ok(
            old(dst)@.len() as int,
            width as int,
            height as int,
            dst_stride as int,
            4,
        )) ==> r == Err::<(), SizeError>(SizeError::InvalidStride) && final(dst)@ == old(dst)@,
        r == Ok::<(), SizeError>(()) ==> final(dst)@ == expand3to4_strided_spec(
            src@,
            old(dst)@,
            width as int,
            height as int,
            src_stride as int,
            dst_stride as int,
            false,
        ),
{
    match check_strided(src.len(), width, height, src_stride, 3) {
        Err(e) => {
            return Err(e);
        },
        Ok(_u) => {},
    }
    match check_strided(dst.len(), width, height, dst_stride, 4) {
        Err(e) => {
            return Err(e);
        },
        Ok(_u) => {},
    }
    let caps = Caps::detect();
    expand3to4_rows(caps, src, dst, width, height, src_stride, dst_stride, false);
    Ok(())
}

/// Gray (1 byte per pixel) -> RGBA (4 bytes per pixel) between strided
/// buffers: R = G = B = gray, alpha 255. Padding bytes between rows are
/// never read or written.
pub fn gray_to_rgba_strided(
    src: &[u8],
    dst: &mut [u8],
    width: usize,
    height: usize,
    src_stride: usize,
    dst_stride: usize,
) -> (r: Result<(), SizeError>)
    ensures
        r == Ok::<(), SizeError>(()) <==> strided_ok(
            src@.len() as int,
            width as int,
            height as int,
            src_stride as int,
            1,
        ) && strided_ok(
            old(dst)@.len() as int,
            width as int,
            height as int,
            dst_stride as int,
            4,
        ),
        !(strided_ok(
            src@.len() as int,
            width as int,
            height as int,
            src_stride as int,
            1,
        ) && strided_ok(
            old(dst)@.len() as int,
            width as int,
            height as int,
            dst_stride as int,
            4,
        )) ==> r == Err::<(), SizeError>(SizeError::InvalidStride) && final(dst)@ == old(dst)@,
        r == Ok::<(), SizeError>(()) ==> final(dst)@ == expand1to4_strided_spec(
            src@,
            old(dst)@,
            width as int,
            height as int,
            src_stride as int,
            dst_stride as int,
        ),
{
    match check_strided(src.len(), width, height, src_stride, 1) {
        Err(e) => {
            return Err(e);
        },
        Ok(_u) => {},
    }
    match check_strided(dst.len(), width, height, dst_stride, 4) {
        Err(e) => {
            return Err(e);
        },
        Ok(_u) => {},
    }
    let caps = Caps::detect();
    expand1to4_rows(caps, src, dst, width, height, src_stride, dst_stride);
    Ok(())
}

/// GrayAlpha (2 bytes per pixel) -> RGBA (4 bytes per pixel) between
/// strided buffers: R = G = B = gray, alpha kept. Padding bytes between
/// rows are never read or written.
pub fn gray_alpha_to_rgba_strided(
    src: &[u8],
    dst: &mut [u8],
    width: usize,
    height: usize,
    src_stride: usize,
    dst_stride: usize,
) -> (r: Result<(), SizeError>)
    ensures
        r == Ok::<(), SizeError>(()) <==> strided_ok(
            src@.len() as int,
            width as int,
            height as int,
            src_stride as int,
            2,
        ) && strided_ok(
            old(dst)@.len() as int,
            width as int,
            height as int,
            dst_stride as int,
            4,
        ),
        !(strided_ok(
            src@.len() as int,
            width as int,
            height as int,
            src_stride as int,
            2,
        ) && strided_ok(
            old(dst)@.len() as int,
            width as int,
            height as int,
            dst_stride as int,
            4,
        )) ==> r == Err::<(), SizeError>(SizeError::InvalidStride) && final(dst)@ == old(dst)@,
        r == Ok::<(), SizeError>(()) ==> final(dst)@ == expand2to4_strided_spec(
            src@,
            old(dst)@,
            width as int,
            height as int,
            src_stride as int,
            dst_stride as int,
        ),
{
    match check_strided(src.len(), width, height, src_stride, 2) {
        Err(e) => {
            return Err(e);
        },
        Ok(_u) => {},
    }
    match check_strided(dst.len(), width, height, dst_stride, 4) {
        Err(e) => {
            return Err(e);
        },
        Ok(_u) => {},
    }
    let caps = Caps::detect();
    expand2to4_rows(caps, src, dst, width, height, src_stride, dst_stride);
    Ok(())
}

/// Swap R and B in place for a strided 3-byte-pixel image (RGB <-> BGR).
///
/// `stride` must be at least `width * 3`. Padding bytes between rows are
/// never read or written.
pub fn rgb_to_bgr_inplace_strided(buf: &mut [u8], width: usize, height: usize, stride: usize) -> (r: Result<
    (),
    SizeError,
>)
    ensures
        r == Ok::<(), SizeError>(()) <==> strided_ok(
            old(buf)@.len() as int,
            width as int,
            height as int,
            stride as int,
            3,
        ),
        !strided_ok(
            old(buf)@.len() as int,
            width as int,
            height as int,
            stride as int,
            3,
        ) ==> r == Err::<(), SizeError>(SizeError::InvalidStride) && final(buf)@ == old(buf)@,
        r == Ok::<(), SizeError>(()) ==> final(buf)@ == swap3_strided_spec(
            old(buf)@,
            width as int,
            height as int,
            stride as int,
        ),
{
    match check_strided(buf.len(), width, height, stride, 3) {
        Err(e) => Err(e),
        Ok(_u) => {
            let caps = Caps::detect();
            swap3_rows(caps, buf, width, height, stride);
            Ok(())
        },
    }
}

/// Copy 3-byte pixels between strided buffers, swapping R and B
/// (RGB -> BGR or the reverse). Padding bytes between rows are never read
/// or written.
pub fn rgb_to_bgr_strided(
    src: &[u8],
    dst: &mut [u8],
    width: usize,
    height: usize,
    src_stride: usize,
    dst_stride: usize,
) -> (r: Result<(), SizeError>)
    ensures
        r == Ok::<(), SizeError>(()) <==> strided_ok(
            src@.len() as int,
            width as int,
            height as int,
            src_stride as int,
            3,
        ) && strided_ok(
            old(dst)@.len() as int,
            width as int,
            height as int,
            dst_stride as int,
            3,
        ),
        !(strided_ok(
            src@.len() as int,
            width as int,
            height as int,
            src_stride as int,
            3,
        ) && strided_ok(
            old(dst)@.len() as int,
            width as int,
            height as int,
            dst_stride as int,
            3,
        )) ==> r == Err::<(), SizeError>(SizeError::InvalidStride) && final(dst)@ == old(dst)@,
        r == Ok::<(), SizeError>(()) ==> final(dst)@ == copy_swap3_strided_spec(
            src@,
            old(dst)@,
            width as int,
            height as int,
            src_stride as int,
            dst_stride as int,
        ),
{
    match check_strided(src.len(), width, height, src_stride, 3) {
        Err(e) => {
            return Err(e);
        },
        Ok(_u) => {},
    }
    match check_strided(dst.len(), width, height, dst_stride, 3) {
        Err(e) => {
            return Err(e);
        },
        Ok(_u) => {},
    }
    let caps = Caps::detect();
    copy_swap3_rows(caps, src, dst, width, height, src_stride, dst_stride);
    Ok(())
}

/// RGBA (4 bytes per pixel) -> RGB (3 bytes per pixel) between strided
/// buffers, dropping alpha. Padding bytes between rows are never read or
/// written.
pub fn rgba_to_rgb_strided(
    src: &[u8],
    dst: &mut [u8],
    width: usize,
    height: usize,
    src_stride: usize,
    dst_stride: usize,
) -> (r: Result<(), SizeError>)
    ensures
        r == Ok::<(), SizeError>(()) <==> strided_ok(
            src@.len() as int,
            width as int,
            height as int,
            src_stride as int,
            4,
        ) && strided_ok(
            old(dst)@.len() as int,
            width as int,
            height as int,
            dst_stride as int,
            3,
        ),
        !(strided_ok(
            src@.len() as int,
            width as int,
            height as int,
            src_stride as int,
            4,
        ) && strided_ok(
            old(dst)@.len() as int,
            width as int,
            height as int,
            dst_stride as int,
            3,
        )) ==> r == Err::<(), SizeError>(SizeError::InvalidStride) && final(dst)@ == old(dst)@,
        r == Ok::<(), SizeError>(()) ==> final(dst)@ == strip4to3_strided_spec(
            src@,
            old(dst)@,
            width as int,
            height as int,
            src_stride as int,
            dst_stride as int,
            false,
        ),
{
    match check_strided(src.len(), width, height, src_stride, 4) {
        Err(e) => {
            return Err(e);
        },
        Ok(_u) => {},
    }
    match check_strided(dst.len(), width, height, dst_stride, 3) {
        Err(e) => {
            return Err(e);
        },
        Ok(_u) => {},
    }
    let caps = Caps::detect();
    strip4to3_rows(caps, src, dst, width, height, src_stride, dst_stride, false);
    Ok(())
}

/// BGRA (4 bytes per pixel) -> RGB (3 bytes per pixel) between strided
/// buffers, dropping alpha and swapping bytes 0 and 2. Padding bytes
/// between rows are never read or written.
pub fn bgra_to_rgb_strided(
    src: &[u8],
    dst: &mut [u8],
    width: usize,
    height: usize,
    src_stride: usize,
    dst_stride: usize,
) -> (r: Result<(), SizeError>)
    ensures
        r == Ok::<(), SizeError>(()) <==> strided_ok(
            src@.len() as int,
            width as int,
            height as int,
            src_stride as int,
            4,
        ) && strided_ok(
            old(dst)@.len() as int,
            width as int,
            height as int,
            dst_stride as int,
            3,
        ),
        !(strided_ok(
            src@.len() as int,
            width as int,
            height as int,
            src_stride as int,
            4,
        ) && strided_ok(
            old(dst)@.len() as int,
            width as int,
            height as int,
            dst_stride as int,
            3,
        )) ==> r == Err::<(), SizeError>(SizeError::InvalidStride) && final(dst)@ == old(dst)@,
        r == Ok::<(), SizeError>(()) ==> final(dst)@ == strip4to3_strided_spec(
            src@,
            old(dst)@,
            width as int,
            height as int,
            src_stride as int,
            dst_stride as int,
            true,
        ),
{
    match check_strided(src.len(), width, height, src_stride, 4) {
        Err(e) => {
            return Err(e);
        },
        Ok(_u) => {},
    }
    match check_strided(dst.len(), width, height, dst_stride, 3) {
        Err(e) => {
            return Err(e);
        },
        Ok(_u) => {},
    }
    let caps = Caps::detect();
    strip4to3_rows(caps, src, dst, width, height, src_stride, dst_stride, true);
    Ok(())
}

// ===========================================================================
// Aliases: symmetric operations exposed under both names, forwarding to
// the one canonical implementation with the same contract
// ===========================================================================

/// Alias for [`rgba_to_bgra_inplace`] — the same symmetric swap.
pub fn bgra_to_rgba_inplace(buf: &mut [u8]) -> (r: Result<(), SizeError>)
    ensures
        r == Ok::<(), SizeError>(()) <==> inplace_ok(old(buf)@.len() as int, 4),
        !inplace_ok(old(buf)@.len() as int, 4) ==> r == Err::<(), SizeError>(
            SizeError::NotPixelAligned,
        ) && final(buf)@ == old(buf)@,
        r == Ok::<(), SizeError>(()) ==> final(buf)@ == swap4_spec(old(buf)@),
{
    rgba_to_bgra_inplace(buf)
}

/// Alias for [`rgba_to_bgra`] — the same symmetric swap.
pub fn bgra_to_rgba(src: &[u8], dst: &mut [u8]) -> (r: Result<(), SizeError>)
    ensures
        r == Ok::<(), SizeError>(()) <==> copy_ok(src@.len() as int, 4, old(dst)@.len() as int, 4),
        r == Err::<(), SizeError>(SizeError::NotPixelAligned) <==> !inplace_ok(
            src@.len() as int,
            4,
        ),
        r == Err::<(), SizeError>(SizeError::PixelCountMismatch) <==> inplace_ok(
            src@.len() as int,
            4,
        ) && old(dst)@.len() < (src@.len() as int / 4) * 4,
        !copy_ok(src@.len() as int, 4, old(dst)@.len() as int, 4) ==> final(dst)@
            == old(dst)@,
        r == Ok::<(), SizeError>(()) ==> final(dst)@ == copy_swap4_region(
            src@,
            0,
            old(dst)@,
            0,
            src@.len() as int / 4,
        ),
        r == Ok::<(), SizeError>(()) ==> final(dst)@.subrange(
            0,
            src@.len() as int,
        ) == swap4_spec(src@),
{
    rgba_to_bgra(src, dst)
}

/// Alias for [`rgb_to_bgr_inplace`] — the same symmetric swap.
pub fn bgr_to_rgb_inplace(buf: &mut [u8]) -> (r: Result<(), SizeError>)
    ensures
        r == Ok::<(), SizeError>(()) <==> inplace_ok(old(buf)@.len() as int, 3),
        !inplace_ok(old(buf)@.len() as int, 3) ==> r == Err::<(), SizeError>(
            SizeError::NotPixelAligned,
        ) && final(buf)@ == old(buf)@,
        r == Ok::<(), SizeError>(()) ==> final(buf)@ == swap3_spec(old(buf)@),
{
    rgb_to_bgr_inplace(buf)
}

/// Alias for [`rgb_to_bgr`] — the same symmetric swap.
pub fn bgr_to_rgb(src: &[u8], dst: &mut [u8]) -> (r: Result<(), SizeError>)
    ensures
        r == Ok::<(), SizeError>(()) <==> copy_ok(src@.len() as int, 3, old(dst)@.len() as int, 3),
        r == Err::<(), SizeError>(SizeError::NotPixelAligned) <==> !inplace_ok(
            src@.len() as int,
            3,
        ),
        r == Err::<(), SizeError>(SizeError::PixelCountMismatch) <==> inplace_ok(
            src@.len() as int,
            3,
        ) && old(dst)@.len() < (src@.len() as int / 3) * 3,
        !copy_ok(src@.len() as int, 3, old(dst)@.len() as int, 3) ==> final(dst)@
            == old(dst)@,
        r == Ok::<(), SizeError>(()) ==> final(dst)@ == copy_swap3_region(
            src@,
            0,
            old(dst)@,
            0,
            src@.len() as int / 3,
        ),
        r == Ok::<(), SizeError>(()) ==> final(dst)@.subrange(
            0,
            src@.len() as int,
        ) == swap3_spec(src@),
{
    rgb_to_bgr(src, dst)
}

/// BGR -> RGBA is the same byte shuffle as RGB -> BGRA.
pub fn bgr_to_rgba(src: &[u8], dst: &mut [u8]) -> (r: Result<(), SizeError>)
    ensures
        r == Ok::<(), SizeError>(()) <==> copy_ok(src@.len() as int, 3, old(dst)@.len() as int, 4),
        r == Err::<(), SizeError>(SizeError::NotPixelAligned) <==> !inplace_ok(
            src@.len() as int,
            3,
        ),
        r == Err::<(), SizeError>(SizeError::PixelCountMismatch) <==> inplace_ok(
            src@.len() as int,
            3,
        ) && old(dst)@.len() < (src@.len() as int / 3) * 4,
        !copy_ok(src@.len() as int, 3, old(dst)@.len() as int, 4) ==> final(dst)@
            == old(dst)@,
        r == Ok::<(), SizeError>(()) ==> final(dst)@ == expand3to4_region(
            src@,
            0,
            old(dst)@,
            0,
            src@.len() as int / 3,
            true,
        ),
        r == Ok::<(), SizeError>(()) ==> final(dst)@.subrange(
            0,
            src@.len() as int / 3 * 4,
        ) == expand3to4_spec(src@, true),
{
    rgb_to_bgra(src, dst)
}

/// BGR -> BGRA is the same byte shuffle as RGB -> RGBA.
pub fn bgr_to_bgra(src: &[u8], dst: &mut [u8]) -> (r: Result<(), SizeError>)
    ensures
        r == Ok::<(), SizeError>(()) <==> copy_ok(src@.len() as int, 3, old(dst)@.len() as int, 4),
        r == Err::<(), SizeError>(SizeError::NotPixelAligned) <==> !inplace_ok(
            src@.len() as int,
            3,
        ),
        r == Err::<(), SizeError>(SizeError::PixelCountMismatch) <==> inplace_ok(
            src@.len() as int,
            3,
        ) && old(dst)@.len() < (src@.len() as int / 3) * 4,
        !copy_ok(src@.len() as int, 3, old(dst)@.len() as int, 4) ==> final(dst)@
            == old(dst)@,
        r == Ok::<(), SizeError>(()) ==> final(dst)@ == expand3to4_region(
            src@,
            0,
            old(dst)@,
            0,
            src@.len() as int / 3,
            false,
        ),
        r == Ok::<(), SizeError>(()) ==> final(dst)@.subrange(
            0,
            src@.len() as int / 3 * 4,
        ) == expand3to4_spec(src@, false),
{
    rgb_to_rgba(src, dst)
}

/// Alias for [`gray_to_rgba`] — R = G = B, so the output is identical.
pub fn gray_to_bgra(src: &[u8], dst: &mut [u8]) -> (r: Result<(), SizeError>)
    ensures
        r == Ok::<(), SizeError>(()) <==> copy_ok(src@.len() as int, 1, old(dst)@.len() as int, 4),
        r == Err::<(), SizeError>(SizeError::NotPixelAligned) <==> !inplace_ok(
            src@.len() as int,
            1,
        ),
        r == Err::<(), SizeError>(SizeError::PixelCountMismatch) <==> inplace_ok(
            src@.len() as int,
            1,
        ) && old(dst)@.len() < (src@.len() as int / 1) * 4,
        !copy_ok(src@.len() as int, 1, old(dst)@.len() as int, 4) ==> final(dst)@
            == old(dst)@,
        r == Ok::<(), SizeError>(()) ==> final(dst)@ == expand1to4_region(
            src@,
            0,
            old(dst)@,
            0,
            src@.len() as int,
        ),
        r == Ok::<(), SizeError>(()) ==> final(dst)@.subrange(
            0,
            src@.len() as int * 4,
        ) == expand1to4_spec(src@),
{
    gray_to_rgba(src, dst)
}

/// Alias for [`gray_alpha_to_rgba`] — R = G = B, so the output is identical.
pub fn gray_alpha_to_bgra(src: &[u8], dst: &mut [u8]) -> (r: Result<(), SizeError>)
    ensures
        r == Ok::<(), SizeError>(()) <==> copy_ok(src@.len() as int, 2, old(dst)@.len() as int, 4),
        r == Err::<(), SizeError>(SizeError::NotPixelAligned) <==> !inplace_ok(
            src@.len() as int,
            2,
        ),
        r == Err::<(), SizeError>(SizeError::PixelCountMismatch) <==> inplace_ok(
            src@.len() as int,
            2,
        ) && old(dst)@.len() < (src@.len() as int / 2) * 4,
        !copy_ok(src@.len() as int, 2, old(dst)@.len() as int, 4) ==> final(dst)@
            == old(dst)@,
        r == Ok::<(), SizeError>(()) ==> final(dst)@ == expand2to4_region(
            src@,
            0,
            old(dst)@,
            0,
            src@.len() as int / 2,
        ),
        r == Ok::<(), SizeError>(()) ==> final(dst)@.subrange(
            0,
            src@.len() as int / 2 * 4,
        ) == expand2to4_spec(src@),
{
    gray_alpha_to_rgba(src, dst)
}

/// BGRA -> BGR is the same as RGBA -> RGB: drop alpha, keep order.
pub fn bgra_to_bgr(src: &[u8], dst: &mut [u8]) -> (r: Result<(), SizeError>)
    ensures
        r == Ok::<(), SizeError>(()) <==> copy_ok(src@.len() as int, 4, old(dst)@.len() as int, 3),
        r == Err::<(), SizeError>(SizeError::NotPixelAligned) <==> !inplace_ok(
            src@.len() as int,
            4,
        ),
        r == Err::<(), SizeError>(SizeError::PixelCountMismatch) <==> inplace_ok(
            src@.len() as int,
            4,
        ) && old(dst)@.len() < (src@.len() as int / 4) * 3,
        !copy_ok(src@.len() as int, 4, old(dst)@.len() as int, 3) ==> final(dst)@
            == old(dst)@,
        r == Ok::<(), SizeError>(()) ==> final(dst)@ == strip4to3_region(
            src@,
            0,
            old(dst)@,
            0,
            src@.len() as int / 4,
            false,
        ),
        r == Ok::<(), SizeError>(()) ==> final(dst)@.subrange(
            0,
            src@.len() as int / 4 * 3,
        ) == strip4to3_spec(src@, false),
{
    rgba_to_rgb(src, dst)
}

/// RGBA -> BGR is the same as BGRA -> RGB: drop alpha and swap.
pub fn rgba_to_bgr(src: &[u8], dst: &mut [u8]) -> (r: Result<(), SizeError>)
    ensures
        r == Ok::<(), SizeError>(()) <==> copy_ok(src@.len() as int, 4, old(dst)@.len() as int, 3),
        r == Err::<(), SizeError>(SizeError::NotPixelAligned) <==> !inplace_ok(
            src@.len() as int,
            4,
        ),
        r == Err::<(), SizeError>(SizeError::PixelCountMismatch) <==> inplace_ok(
            src@.len() as int,
            4,
        ) && old(dst)@.len() < (src@.len() as int / 4) * 3,
        !copy_ok(src@.len() as int, 4, old(dst)@.len() as int, 3) ==> final(dst)@
            == old(dst)@,
        r == Ok::<(), SizeError>(()) ==> final(dst)@ == strip4to3_region(
            src@,
            0,
            old(dst)@,
            0,
            src@.len() as int / 4,
            true,
        ),
        r == Ok::<(), SizeError>(()) ==> final(dst)@.subrange(
            0,
            src@.len() as int / 4 * 3,
        ) == strip4to3_spec(src@, true),
{
    bgra_to_rgb(src, dst)
}

/// Alias for [`rgba_to_bgra_inplace_strided`] — the same symmetric swap.
pub fn bgra_to_rgba_inplace_strided(buf: &mut [u8], width: usize, height: usize, stride: usize) -> (r: Result<
    (),
    SizeError,
>)
    ensures
        r == Ok::<(), SizeError>(()) <==> strided_ok(
            old(buf)@.len() as int,
            width as int,
            height as int,
            stride as int,
            4,
        ),
        !strided_ok(
            old(buf)@.len() as int,
            width as int,
            height as int,
            stride as int,
            4,
        ) ==> r == Err::<(), SizeError>(SizeError::InvalidStride) && final(buf)@ == old(buf)@,
        r == Ok::<(), SizeError>(()) ==> final(buf)@ == swap4_strided_spec(
            old(buf)@,
            width as int,
            height as int,
            stride as int,
        ),
{
    rgba_to_bgra_inplace_strided(buf, width, height, stride)
}

/// Alias for [`rgba_to_bgra_strided`] — the same symmetric swap.
pub fn bgra_to_rgba_strided(
    src: &[u8],
    dst: &mut [u8],
    width: usize,
    height: usize,
    src_stride: usize,
    dst_stride: usize,
) -> (r: Result<(), SizeError>)
    ensures
        r == Ok::<(), SizeError>(()) <==> strided_ok(
            src@.len() as int,
            width as int,
            height as int,
            src_stride as int,
            4,
        ) && strided_ok(
            old(dst)@.len() as int,
            width as int,
            height as int,
            dst_stride as int,
            4,
        ),
        !(strided_ok(
            src@.len() as int,
            width as int,
            height as int,
            src_stride as int,
            4,
        ) && strided_ok(
            old(dst)@.len() as int,
            width as int,
            height as int,
            dst_stride as int,
            4,
        )) ==> r == Err::<(), SizeError>(SizeError::InvalidStride) && final(dst)@ == old(dst)@,
        r == Ok::<(), SizeError>(()) ==> final(dst)@ == copy_swap4_strided_spec(
            src@,
            old(dst)@,
            width as int,
            height as int,
            src_stride as int,
            dst_stride as int,
        ),
{
    rgba_to_bgra_strided(src, dst, width, height, src_stride, dst_stride)
}

/// Alias for [`fill_alpha_rgba_strided`] — byte 3 is the alpha byte in both layouts.
pub fn fill_alpha_bgra_strided(buf: &mut [u8], width: usize, height: usize, stride: usize) -> (r: Result<
    (),
    SizeError,
>)
    ensures
        r == Ok::<(), SizeError>(()) <==> strided_ok(
            old(buf)@.len() as int,
            width as int,
            height as int,
            stride as int,
            4,
        ),
        !strided_ok(
            old(buf)@.len() as int,
            width as int,
            height as int,
            stride as int,
            4,
        ) ==> r == Err::<(), SizeError>(SizeError::InvalidStride) && final(buf)@ == old(buf)@,
        r == Ok::<(), SizeError>(()) ==> final(buf)@ == fill4_strided_spec(
            old(buf)@,
            width as int,
            height as int,
            stride as int,
        ),
{
    fill_alpha_rgba_strided(buf, width, height, stride)
}

/// BGR -> RGBA is the same byte shuffle as RGB -> BGRA.
pub fn bgr_to_rgba_strided(
    src: &[u8],
    dst: &mut [u8],
    width: usize,
    height: usize,
    src_stride: usize,
    dst_stride: usize,
) -> (r: Result<(), SizeError>)
    ensures
        r == Ok::<(), SizeError>(()) <==> strided_ok(
            src@.len() as int,
            width as int,
            height as int,
            src_stride as int,
            3,
        ) && strided_ok(
            old(dst)@.len() as int,
            width as int,
            height as int,
            dst_stride as int,
            4,
        ),
        !(strided_ok(
            src@.len() as int,
            width as int,
            height as int,
            src_stride as int,
            3,
        ) && strided_ok(
            old(dst)@.len() as int,
            width as int,
            height as int,
            dst_stride as int,
            4,
        )) ==> r == Err::<(), SizeError>(SizeError::InvalidStride) && final(dst)@ == old(dst)@,
        r == Ok::<(), SizeError>(()) ==> final(dst)@ == expand3to4_strided_spec(
            src@,
            old(dst)@,
            width as int,
            height as int,
            src_stride as int,
            dst_stride as int,
            true,
        ),
{
    rgb_to_bgra_strided(src, dst, width, height, src_stride, dst_stride)
}

/// BGR -> BGRA is the same byte shuffle as RGB -> RGBA.
pub fn bgr_to_bgra_strided(
    src: &[u8],
    dst: &mut [u8],
    width: usize,
    height: usize,
    src_stride: usize,
    dst_stride: usize,
) -> (r: Result<(), SizeError>)
    ensures
        r == Ok::<(), SizeError>(()) <==> strided_ok(
            src@.len() as int,
            width as int,
            height as int,
            src_stride as int,
            3,
        ) && strided_ok(
            old(dst)@.len() as int,
            width as int,
            height as int,
            dst_stride as int,
            4,
        ),
        !(strided_ok(
            src@.len() as int,
            width as int,
            height as int,
            src_stride as int,
            3,
        ) && strided_ok(
            old(dst)@.len() as int,
            width as int,
            height as int,
            dst_stride as int,
            4,
        )) ==> r == Err::<(), SizeError>(SizeError::InvalidStride) && final(dst)@ == old(dst)@,
        r == Ok::<(), SizeError>(()) ==> final(dst)@ == expand3to4_strided_spec(
            src@,
            old(dst)@,
            width as int,
            height as int,
            src_stride as int,
            dst_stride as int,
            false,
        ),
{
    rgb_to_rgba_strided(src, dst, width, height, src_stride, dst_stride)
}

/// Alias for [`gray_to_rgba_strided`] — R = G = B, so the output is identical.
pub fn gray_to_bgra_strided(
    src: &[u8],
    dst: &mut [u8],
    width: usize,
    height: usize,
    src_stride: usize,
    dst_stride: usize,
) -> (r: Result<(), SizeError>)
    ensures
        r == Ok::<(), SizeError>(()) <==> strided_ok(
            src@.len() as int,
            width as int,
            height as int,
            src_stride as int,
            1,
        ) && strided_ok(
            old(dst)@.len() as int,
            width as int,
            height as int,
            dst_stride as int,
            4,
        ),
        !(strided_ok(
            src@.len() as int,
            width as int,
            height as int,
            src_stride as int,
            1,
        ) && strided_ok(
            old(dst)@.len() as int,
            width as int,
            height as int,
            dst_stride as int,
            4,
        )) ==> r == Err::<(), SizeError>(SizeError::InvalidStride) && final(dst)@ == old(dst)@,
        r == Ok::<(), SizeError>(()) ==> final(dst)@ == expand1to4_strided_spec(
            src@,
            old(dst)@,
            width as int,
            height as int,
            src_stride as int,
            dst_stride as int,
        ),
{
    gray_to_rgba_strided(src, dst, width, height, src_stride, dst_stride)
}

/// Alias for [`gray_alpha_to_rgba_strided`] — R = G = B, so the output is identical.
pub fn gray_alpha_to_bgra_strided(
    src: &[u8],
    dst: &mut [u8],
    width: usize,
    height: usize,
    src_stride: usize,
    dst_stride: usize,
) -> (r: Result<(), SizeError>)
    ensures
        r == Ok::<(), SizeError>(()) <==> strided_ok(
            src@.len() as int,
            width as int,
            height as int,
            src_stride as int,
            2,
        ) && strided_ok(
            old(dst)@.len() as int,
            width as int,
            height as int,
            dst_stride as int,
            4,
        ),
        !(strided_ok(
            src@.len() as int,
            width as int,
            height as int,
            src_stride as int,
            2,
        ) && strided_ok(
            old(dst)@.len() as int,
            width as int,
            height as int,
            dst_stride as int,
            4,
        )) ==> r == Err::<(), SizeError>(SizeError::InvalidStride) && final(dst)@ == old(dst)@,
        r == Ok::<(), SizeError>(()) ==> final(dst)@ == expand2to4_strided_spec(
            src@,
            old(dst)@,
            width as int,
            height as int,
            src_stride as int,
            dst_stride as int,
        ),
{
    gray_alpha_to_rgba_strided(src, dst, width, height, src_stride, dst_stride)
}

/// BGRA -> BGR is the same as RGBA -> RGB: drop alpha, keep order.
pub fn bgra_to_bgr_strided(
    src: &[u8],
    dst: &mut [u8],
    width: usize,
    height: usize,
    src_stride: usize,
    dst_stride: usize,
) -> (r: Result<(), SizeError>)
    ensures
        r == Ok::<(), SizeError>(()) <==> strided_ok(
            src@.len() as int,
            width as int,
            height as int,
            src_stride as int,
            4,
        ) && strided_ok(
            old(dst)@.len() as int,
            width as int,
            height as int,
            dst_stride as int,
            3,
        ),
        !(strided_ok(
            src@.len() as int,
            width as int,
            height as int,
            src_stride as int,
            4,
        ) && strided_ok(
            old(dst)@.len() as int,
            width as int,
            height as int,
            dst_stride as int,
            3,
        )) ==> r == Err::<(), SizeError>(SizeError::InvalidStride) && final(dst)@ == old(dst)@,
        r == Ok::<(), SizeError>(()) ==> final(dst)@ == strip4to3_strided_spec(
            src@,
            old(dst)@,
            width as int,
            height as int,
            src_stride as int,
            dst_stride as int,
            false,
        ),
{
    rgba_to_rgb_strided(src, dst, width, height, src_stride, dst_stride)
}

/// RGBA -> BGR is the same as BGRA -> RGB: drop alpha and swap.
pub fn rgba_to_bgr_strided(
    src: &[u8],
    dst: &mut [u8],
    width: usize,
    height: usize,
    src_stride: usize,
    dst_stride: usize,
) -> (r: Result<(), SizeError>)
    ensures
        r == Ok::<(), SizeError>(()) <==> strided_ok(
            src@.len() as int,
            width as int,
            height as int,
            src_stride as int,
            4,
        ) && strided_ok(
            old(dst)@.len() as int,
            width as int,
            height as int,
            dst_stride as int,
            3,
        ),
        !(strided_ok(
            src@.len() as int,
            width as int,
            height as int,
            src_stride as int,
            4,
        ) && strided_ok(
            old(dst)@.len() as int,
            width as int,
            height as int,
            dst_stride as int,
            3,
        )) ==> r == Err::<(), SizeError>(SizeError::InvalidStride) && final(dst)@ == old(dst)@,
        r == Ok::<(), SizeError>(()) ==> final(dst)@ == strip4to3_strided_spec(
            src@,
            old(dst)@,
            width as int,
            height as int,
            src_stride as int,
            dst_stride as int,
            true,
        ),
{
    bgra_to_rgb_strided(src, dst, width, height, src_stride, dst_stride)
}

/// Alias for [`rgb_to_bgr_inplace_strided`] — the same symmetric swap.
pub fn bgr_to_rgb_inplace_strided(buf: &mut [u8], width: usize, height: usize, stride: usize) -> (r: Result<
    (),
    SizeError,
>)
    ensures
        r == Ok::<(), SizeError>(()) <==> strided_ok(
            old(buf)@.len() as int,
            width as int,
            height as int,
            stride as int,
            3,
        ),
        !strided_ok(
            old(buf)@.len() as int,
            width as int,
            height as int,
            stride as int,
            3,
        ) ==> r == Err::<(), SizeError>(SizeError::InvalidStride) && final(buf)@ == old(buf)@,
        r == Ok::<(), SizeError>(()) ==> final(buf)@ == swap3_strided_spec(
            old(buf)@,
            width as int,
            height as int,
            stride as int,
        ),
{
    rgb_to_bgr_inplace_strided(buf, width, height, stride)
}

/// Alias for [`rgb_to_bgr_strided`] — the same symmetric swap.
pub fn bgr_to_rgb_strided(
    src: &[u8],
    dst: &mut [u8],
    width: usize,
    height: usize,
    src_stride: usize,
    dst_stride: usize,
) -> (r: Result<(), SizeError>)
    ensures
        r == Ok::<(), SizeError>(()) <==> strided_ok(
            src@.len() as int,
            width as int,
            height as int,
            src_stride as int,
            3,
        ) && strided_ok(
            old(dst)@.len() as int,
            width as int,
            height as int,
            dst_stride as int,
            3,
        ),
        !(strided_ok(
            src@.len() as int,
            width as int,
            height as int,
            src_stride as int,
            3,
        ) && strided_ok(
            old(dst)@.len() as int,
            width as int,
            height as int,
            dst_stride as int,
            3,
        )) ==> r == Err::<(), SizeError>(SizeError::InvalidStride) && final(dst)@ == old(dst)@,
        r == Ok::<(), SizeError>(()) ==> final(dst)@ == copy_swap3_strided_spec(
            src@,
            old(dst)@,
            width as int,
            height as int,
            src_stride as int,
            dst_stride as int,
        ),
{
    rgb_to_bgr_strided(src, dst, width, height, src_stride, dst_stride)
}

} // verus!
