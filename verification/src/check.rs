//! Geometry validation: pixel alignment, destination capacity, and
//! stride/dimension consistency.
//!
//! Every conversion validates its buffers here before touching any byte.
//! The contracts state exactly which inputs are accepted and which error
//! each rejected input yields. All arithmetic in the executable code is
//! overflow-checked; the specifications use unbounded integers, so a
//! product that would overflow `usize` is simply a size the buffer cannot
//! reach and is rejected.

use vstd::prelude::*;

use crate::SizeError;

verus! {

/// A contiguous buffer of `len` bytes holds a whole number of `bpp`-byte
/// pixels and is not empty.
pub open spec fn inplace_ok(len: int, bpp: int) -> bool {
    len > 0 && len % bpp == 0
}

/// A destination of `dst_len` bytes can hold every pixel of a valid
/// `src_len`-byte source, at `dst_bpp` bytes per destination pixel.
pub open spec fn copy_ok(src_len: int, src_bpp: int, dst_len: int, dst_bpp: int) -> bool {
    inplace_ok(src_len, src_bpp) && dst_len >= (src_len / src_bpp) * dst_bpp
}

/// A strided image of `width`x`height` pixels at `bpp` bytes per pixel,
/// whose rows start `stride` bytes apart, fits in a buffer of `len` bytes.
pub open spec fn strided_ok(len: int, width: int, height: int, stride: int, bpp: int) -> bool {
    width > 0 && height > 0 && width * bpp <= stride && (height - 1) * stride + width * bpp <= len
}

/// Accepts a contiguous in-place buffer: non-empty and a whole number of
/// pixels. Rejects everything else as `NotPixelAligned`.
pub fn check_inplace(len: usize, bpp: usize) -> (r: Result<(), SizeError>)
    requires
        bpp > 0,
    ensures
        r == Ok::<(), SizeError>(()) <==> inplace_ok(len as int, bpp as int),
        !inplace_ok(len as int, bpp as int) ==> r == Err::<(), SizeError>(
            SizeError::NotPixelAligned,
        ),
{
    if len == 0 || len % bpp != 0 {
        Err(SizeError::NotPixelAligned)
    } else {
        Ok(())
    }
}

/// Accepts a source/destination pair for a copy conversion: the source must
/// be a non-empty whole number of `src_bpp`-byte pixels (`NotPixelAligned`
/// otherwise), and the destination must hold at least as many `dst_bpp`-byte
/// pixels (`PixelCountMismatch` otherwise). A larger destination is fine;
/// its trailing bytes are left untouched by the conversions.
pub fn check_copy(src_len: usize, src_bpp: usize, dst_len: usize, dst_bpp: usize) -> (r: Result<
    (),
    SizeError,
>)
    requires
        src_bpp > 0,
    ensures
        r == Ok::<(), SizeError>(()) <==> copy_ok(
            src_len as int,
            src_bpp as int,
            dst_len as int,
            dst_bpp as int,
        ),
        r == Err::<(), SizeError>(SizeError::NotPixelAligned) <==> !inplace_ok(
            src_len as int,
            src_bpp as int,
        ),
        r == Err::<(), SizeError>(SizeError::PixelCountMismatch) <==> (inplace_ok(
            src_len as int,
            src_bpp as int,
        ) && dst_len < (src_len as int / src_bpp as int) * dst_bpp),
{
    if src_len == 0 || src_len % src_bpp != 0 {
        return Err(SizeError::NotPixelAligned);
    }
    let pixels: usize = src_len / src_bpp;
    match pixels.checked_mul(dst_bpp) {
        Some(need) => {
            if dst_len < need {
                Err(SizeError::PixelCountMismatch)
            } else {
                Ok(())
            }
        },
        None => Err(SizeError::PixelCountMismatch),
    }
}

/// Accepts a strided image description: positive dimensions, rows no wider
/// than the stride, and a buffer long enough for `height - 1` full strides
/// plus one active row. Anything else — including any size computation that
/// would overflow — is `InvalidStride`.
pub fn check_strided(len: usize, width: usize, height: usize, stride: usize, bpp: usize) -> (r:
    Result<(), SizeError>)
    ensures
        r == Ok::<(), SizeError>(()) <==> strided_ok(
            len as int,
            width as int,
            height as int,
            stride as int,
            bpp as int,
        ),
        !strided_ok(len as int, width as int, height as int, stride as int, bpp as int) ==> r
            == Err::<(), SizeError>(SizeError::InvalidStride),
{
    if width == 0 || height == 0 {
        return Err(SizeError::InvalidStride);
    }
    let row_bytes: usize = match width.checked_mul(bpp) {
        Some(rb) => rb,
        None => {
            return Err(SizeError::InvalidStride);
        },
    };
    if row_bytes > stride {
        return Err(SizeError::InvalidStride);
    }
    let total: usize = match (height - 1).checked_mul(stride) {
        Some(base) => match base.checked_add(row_bytes) {
            Some(t) => t,
            None => {
                return Err(SizeError::InvalidStride);
            },
        },
        None => {
            return Err(SizeError::InvalidStride);
        },
    };
    if len < total {
        return Err(SizeError::InvalidStride);
    }
    Ok(())
}

/// Accepts a source/destination pair of whole images with identical
/// dimensions; a mismatch is `PixelCountMismatch`.
pub fn check_dims(sw: usize, sh: usize, dw: usize, dh: usize) -> (r: Result<(), SizeError>)
    ensures
        r == Ok::<(), SizeError>(()) <==> (sw == dw && sh == dh),
        !(sw == dw && sh == dh) ==> r == Err::<(), SizeError>(SizeError::PixelCountMismatch),
{
    if sw != dw || sh != dh {
        Err(SizeError::PixelCountMismatch)
    } else {
        Ok(())
    }
}

} // verus!
