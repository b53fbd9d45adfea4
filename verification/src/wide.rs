//! The wide tier's chunk kernels: eight bytes — two 4-byte pixels — move
//! through one 64-bit register per step.
//!
//! The register value is the little-endian packing of the eight bytes; the
//! transformation is a shift-and-mask mix on the whole register, and the
//! proofs show, by bit blasting, that the mixed register unpacks to
//! exactly the bytes the scalar specification demands. Nothing here is
//! trusted: the packing, the mix and the unpacking are all verified code.

use vstd::prelude::*;

use crate::pixel::copy_swap4_region;
use crate::pixel::expand1to4_region;
use crate::pixel::expand2to4_region;
use crate::pixel::expand3to4_region;
use crate::pixel::fill4_region;
use crate::pixel::lemma_expand1to4_at;
use crate::pixel::lemma_expand2to4_at;
use crate::pixel::lemma_expand3to4_at;
use crate::pixel::lemma_fill4_at;
use crate::pixel::lemma_swap4_at;
use crate::pixel::swap4_region;

verus! {

/// Eight bytes packed into a little-endian 64-bit word.
pub open spec fn pack8(b0: u8, b1: u8, b2: u8, b3: u8, b4: u8, b5: u8, b6: u8, b7: u8) -> u64 {
    (b0 as u64) | ((b1 as u64) << 8) | ((b2 as u64) << 16) | ((b3 as u64) << 24) | ((b4 as u64)
        << 32) | ((b5 as u64) << 40) | ((b6 as u64) << 48) | ((b7 as u64) << 56)
}

/// The shift-and-mask mix that swaps bytes 0 and 2 of each packed 4-byte
/// pixel: bytes 1 and 3 are kept in place, byte 0 is moved up 16 bits and
/// byte 2 down 16 bits.
pub open spec fn swap_mix64(w: u64) -> u64 {
    (w & 0xFF00_FF00_FF00_FF00) | ((w << 16) & 0x00FF_0000_00FF_0000) | ((w >> 16)
        & 0x0000_00FF_0000_00FF)
}

/// The mask that forces byte 3 of each packed 4-byte pixel to 255.
pub open spec fn fill_mix64(w: u64) -> u64 {
    w | 0xFF00_0000_FF00_0000
}

proof fn lemma_swap_mix64(b0: u8, b1: u8, b2: u8, b3: u8, b4: u8, b5: u8, b6: u8, b7: u8)
    ensures
        swap_mix64(pack8(b0, b1, b2, b3, b4, b5, b6, b7)) == pack8(b2, b1, b0, b3, b6, b5, b4, b7),
{
    assert(swap_mix64(pack8(b0, b1, b2, b3, b4, b5, b6, b7)) == pack8(
        b2,
        b1,
        b0,
        b3,
        b6,
        b5,
        b4,
        b7,
    )) by (bit_vector);
}

proof fn lemma_fill_mix64(b0: u8, b1: u8, b2: u8, b3: u8, b4: u8, b5: u8, b6: u8, b7: u8)
    ensures
        fill_mix64(pack8(b0, b1, b2, b3, b4, b5, b6, b7)) == pack8(
            b0,
            b1,
            b2,
            255u8,
            b4,
            b5,
            b6,
            255u8,
        ),
{
    assert(fill_mix64(pack8(b0, b1, b2, b3, b4, b5, b6, b7)) == pack8(
        b0,
        b1,
        b2,
        255u8,
        b4,
        b5,
        b6,
        255u8,
    )) by (bit_vector);
}

/// Unpacking is the inverse of packing: shifting the packed word right by
/// eight times the byte's index and masking yields the byte.
proof fn lemma_pack8_bytes(b0: u8, b1: u8, b2: u8, b3: u8, b4: u8, b5: u8, b6: u8, b7: u8)
    ensures
        (pack8(b0, b1, b2, b3, b4, b5, b6, b7) & 0xFF) as u8 == b0,
        ((pack8(b0, b1, b2, b3, b4, b5, b6, b7) >> 8) & 0xFF) as u8 == b1,
        ((pack8(b0, b1, b2, b3, b4, b5, b6, b7) >> 16) & 0xFF) as u8 == b2,
        ((pack8(b0, b1, b2, b3, b4, b5, b6, b7) >> 24) & 0xFF) as u8 == b3,
        ((pack8(b0, b1, b2, b3, b4, b5, b6, b7) >> 32) & 0xFF) as u8 == b4,
        ((pack8(b0, b1, b2, b3, b4, b5, b6, b7) >> 40) & 0xFF) as u8 == b5,
        ((pack8(b0, b1, b2, b3, b4, b5, b6, b7) >> 48) & 0xFF) as u8 == b6,
        ((pack8(b0, b1, b2, b3, b4, b5, b6, b7) >> 56) & 0xFF) as u8 == b7,
{
    let w = pack8(b0, b1, b2, b3, b4, b5, b6, b7);
    assert((pack8(b0, b1, b2, b3, b4, b5, b6, b7) & 0xFF) as u8 == b0 && (pack8(
        b0,
        b1,
        b2,
        b3,
        b4,
        b5,
        b6,
        b7,
    ) >> 8 & 0xFF) as u8 == b1 && (pack8(b0, b1, b2, b3, b4, b5, b6, b7) >> 16 & 0xFF) as u8 == b2
        && (pack8(b0, b1, b2, b3, b4, b5, b6, b7) >> 24 & 0xFF) as u8 == b3 && (pack8(
        b0,
        b1,
        b2,
        b3,
        b4,
        b5,
        b6,
        b7,
    ) >> 32 & 0xFF) as u8 == b4 && (pack8(b0, b1, b2, b3, b4, b5, b6, b7) >> 40 & 0xFF) as u8 == b5
        && (pack8(b0, b1, b2, b3, b4, b5, b6, b7) >> 48 & 0xFF) as u8 == b6 && (pack8(
        b0,
        b1,
        b2,
        b3,
        b4,
        b5,
        b6,
        b7,
    ) >> 56 & 0xFF) as u8 == b7) by (bit_vector);
}

/// Pack the eight bytes at `buf[i .. i + 8]` into one little-endian
/// 64-bit register value.
fn load8(buf: &[u8], i: usize) -> (w: u64)
    requires
        i + 8 <= buf@.len(),
    ensures
        w == pack8(
            buf@[i as int],
            buf@[i + 1],
            buf@[i + 2],
            buf@[i + 3],
            buf@[i + 4],
            buf@[i + 5],
            buf@[i + 6],
            buf@[i + 7],
        ),
{
    (buf[i] as u64) | ((buf[i + 1] as u64) << 8u64) | ((buf[i + 2] as u64) << 16u64) | ((buf[i
        + 3] as u64) << 24u64) | ((buf[i + 4] as u64) << 32u64) | ((buf[i + 5] as u64) << 40u64)
        | ((buf[i + 6] as u64) << 48u64) | ((buf[i + 7] as u64) << 56u64)
}

/// Store a 64-bit register value back as eight little-endian bytes at
/// `buf[i .. i + 8]`.
fn store8(buf: &mut [u8], i: usize, w: u64)
    requires
        i + 8 <= old(buf)@.len(),
    ensures
        final(buf)@.len() == old(buf)@.len(),
        forall|j: int|
            0 <= j < old(buf)@.len() && !(i <= j < i + 8) ==> final(buf)@[j] == old(buf)@[j],
        final(buf)@[i as int] == (w & 0xFF) as u8,
        final(buf)@[i + 1] == ((w >> 8) & 0xFF) as u8,
        final(buf)@[i + 2] == ((w >> 16) & 0xFF) as u8,
        final(buf)@[i + 3] == ((w >> 24) & 0xFF) as u8,
        final(buf)@[i + 4] == ((w >> 32) & 0xFF) as u8,
        final(buf)@[i + 5] == ((w >> 40) & 0xFF) as u8,
        final(buf)@[i + 6] == ((w >> 48) & 0xFF) as u8,
        final(buf)@[i + 7] == ((w >> 56) & 0xFF) as u8,
{
    buf[i] = (w & 0xFF) as u8;
    buf[i + 1] = ((w >> 8u64) & 0xFF) as u8;
    buf[i + 2] = ((w >> 16u64) & 0xFF) as u8;
    buf[i + 3] = ((w >> 24u64) & 0xFF) as u8;
    buf[i + 4] = ((w >> 32u64) & 0xFF) as u8;
    buf[i + 5] = ((w >> 40u64) & 0xFF) as u8;
    buf[i + 6] = ((w >> 48u64) & 0xFF) as u8;
    buf[i + 7] = ((w >> 56u64) & 0xFF) as u8;
}

/// Swap bytes 0 and 2 of the two 4-byte pixels at `buf[i .. i + 8]` in one
/// 64-bit register: keep bytes 1 and 3 with one mask, move bytes 0 and 2
/// across with two shifted masks.
pub fn swap4_chunk8(buf: &mut [u8], i: usize)
    requires
        i + 8 <= old(buf)@.len(),
    ensures
        final(buf)@ == swap4_region(old(buf)@, i as int, 2),
{
    let ghost orig = buf@;
    let ghost sub = orig.subrange(i as int, i + 8);
    let w = load8(buf, i);
    let m = (w & 0xFF00_FF00_FF00_FF00) | ((w << 16u64) & 0x00FF_0000_00FF_0000) | ((w >> 16u64)
        & 0x0000_00FF_0000_00FF);
    proof {
        lemma_swap_mix64(sub[0], sub[1], sub[2], sub[3], sub[4], sub[5], sub[6], sub[7]);
        lemma_pack8_bytes(sub[2], sub[1], sub[0], sub[3], sub[6], sub[5], sub[4], sub[7]);
    }
    store8(buf, i, m);
    proof {
        lemma_swap4_at(sub, 0);
        lemma_swap4_at(sub, 1);
        assert(buf@ =~= swap4_region(orig, i as int, 2));
    }
}

/// Copy the two 4-byte pixels at `src[j .. j + 8]` to `dst[i .. i + 8]`
/// through one 64-bit register, swapping bytes 0 and 2 of each pixel with
/// the same shift-and-mask mix as the in-place chunk.
pub fn copy_swap4_chunk8(src: &[u8], dst: &mut [u8], j: usize, i: usize)
    requires
        j + 8 <= src@.len(),
        i + 8 <= old(dst)@.len(),
    ensures
        final(dst)@ == copy_swap4_region(src@, j as int, old(dst)@, i as int, 2),
{
    let ghost origd = dst@;
    let ghost sub = src@.subrange(j as int, j + 8);
    let w = load8(src, j);
    let m = (w & 0xFF00_FF00_FF00_FF00) | ((w << 16u64) & 0x00FF_0000_00FF_0000) | ((w >> 16u64)
        & 0x0000_00FF_0000_00FF);
    proof {
        lemma_swap_mix64(sub[0], sub[1], sub[2], sub[3], sub[4], sub[5], sub[6], sub[7]);
        lemma_pack8_bytes(sub[2], sub[1], sub[0], sub[3], sub[6], sub[5], sub[4], sub[7]);
    }
    store8(dst, i, m);
    proof {
        lemma_swap4_at(sub, 0);
        lemma_swap4_at(sub, 1);
        assert(dst@ =~= copy_swap4_region(src@, j as int, origd, i as int, 2));
    }
}

/// Set byte 3 of the two 4-byte pixels at `buf[i .. i + 8]` to 255 in one
/// 64-bit register, by OR-ing in the alpha mask.
pub fn fill4_chunk8(buf: &mut [u8], i: usize)
    requires
        i + 8 <= old(buf)@.len(),
    ensures
        final(buf)@ == fill4_region(old(buf)@, i as int, 2),
{
    let ghost orig = buf@;
    let ghost sub = orig.subrange(i as int, i + 8);
    let w = load8(buf, i);
    let m = w | 0xFF00_0000_FF00_0000;
    proof {
        lemma_fill_mix64(sub[0], sub[1], sub[2], sub[3], sub[4], sub[5], sub[6], sub[7]);
        lemma_pack8_bytes(sub[0], sub[1], sub[2], 255u8, sub[4], sub[5], sub[6], 255u8);
    }
    store8(buf, i, m);
    proof {
        lemma_fill4_at(sub, 0);
        lemma_fill4_at(sub, 1);
        assert(buf@ =~= fill4_region(orig, i as int, 2));
    }
}

/// Widen the two gray bytes at `src[j .. j + 2]` to two `[g, g, g, 255]`
/// pixels at `dst[i .. i + 8]`, assembled in one 64-bit register and
/// written with a single store.
pub fn expand1to4_chunk8(src: &[u8], dst: &mut [u8], j: usize, i: usize)
    requires
        j + 2 <= src@.len(),
        i + 8 <= old(dst)@.len(),
    ensures
        final(dst)@ == expand1to4_region(src@, j as int, old(dst)@, i as int, 2),
{
    let ghost origd = dst@;
    let ghost sub = src@.subrange(j as int, j + 2);
    let g0 = src[j];
    let g1 = src[j + 1];
    let w = (g0 as u64) | ((g0 as u64) << 8u64) | ((g0 as u64) << 16u64) | (0xFFu64 << 24u64) | ((
    g1 as u64) << 32u64) | ((g1 as u64) << 40u64) | ((g1 as u64) << 48u64) | (0xFFu64 << 56u64);
    proof {
        assert(w == pack8(sub[0], sub[0], sub[0], 255u8, sub[1], sub[1], sub[1], 255u8));
        lemma_pack8_bytes(sub[0], sub[0], sub[0], 255u8, sub[1], sub[1], sub[1], 255u8);
    }
    store8(dst, i, w);
    proof {
        lemma_expand1to4_at(sub, 0);
        lemma_expand1to4_at(sub, 1);
        assert(dst@ =~= expand1to4_region(src@, j as int, origd, i as int, 2));
    }
}

/// Widen the two gray+alpha pairs at `src[j .. j + 4]` to two
/// `[g, g, g, a]` pixels at `dst[i .. i + 8]`, assembled in one 64-bit
/// register and written with a single store.
pub fn expand2to4_chunk8(src: &[u8], dst: &mut [u8], j: usize, i: usize)
    requires
        j + 4 <= src@.len(),
        i + 8 <= old(dst)@.len(),
    ensures
        final(dst)@ == expand2to4_region(src@, j as int, old(dst)@, i as int, 2),
{
    let ghost origd = dst@;
    let ghost sub = src@.subrange(j as int, j + 4);
    let g0 = src[j];
    let a0 = src[j + 1];
    let g1 = src[j + 2];
    let a1 = src[j + 3];
    let w = (g0 as u64) | ((g0 as u64) << 8u64) | ((g0 as u64) << 16u64) | ((a0 as u64) << 24u64)
        | ((g1 as u64) << 32u64) | ((g1 as u64) << 40u64) | ((g1 as u64) << 48u64) | ((a1 as u64)
        << 56u64);
    proof {
        assert(w == pack8(sub[0], sub[0], sub[0], sub[1], sub[2], sub[2], sub[2], sub[3]));
        lemma_pack8_bytes(sub[0], sub[0], sub[0], sub[1], sub[2], sub[2], sub[2], sub[3]);
    }
    store8(dst, i, w);
    proof {
        lemma_expand2to4_at(sub, 0);
        lemma_expand2to4_at(sub, 1);
        assert(dst@ =~= expand2to4_region(src@, j as int, origd, i as int, 2));
    }
}

/// Widen the two 3-byte pixels at `src[j .. j + 6]` to two 4-byte pixels
/// at `dst[i .. i + 8]` — channels reversed when `reverse`, alpha 255 —
/// assembled in one 64-bit register and written with a single store.
pub fn expand3to4_chunk8(src: &[u8], dst: &mut [u8], j: usize, i: usize, reverse: bool)
    requires
        j + 6 <= src@.len(),
        i + 8 <= old(dst)@.len(),
    ensures
        final(dst)@ == expand3to4_region(src@, j as int, old(dst)@, i as int, 2, reverse),
{
    let ghost origd = dst@;
    let ghost sub = src@.subrange(j as int, j + 6);
    let s0 = src[j];
    let s1 = src[j + 1];
    let s2 = src[j + 2];
    let s3 = src[j + 3];
    let s4 = src[j + 4];
    let s5 = src[j + 5];
    let w = if reverse {
        (s2 as u64) | ((s1 as u64) << 8u64) | ((s0 as u64) << 16u64) | (0xFFu64 << 24u64) | ((
        s5 as u64) << 32u64) | ((s4 as u64) << 40u64) | ((s3 as u64) << 48u64) | (0xFFu64
            << 56u64)
    } else {
        (s0 as u64) | ((s1 as u64) << 8u64) | ((s2 as u64) << 16u64) | (0xFFu64 << 24u64) | ((
        s3 as u64) << 32u64) | ((s4 as u64) << 40u64) | ((s5 as u64) << 48u64) | (0xFFu64
            << 56u64)
    };
    proof {
        if reverse {
            assert(w == pack8(sub[2], sub[1], sub[0], 255u8, sub[5], sub[4], sub[3], 255u8));
            lemma_pack8_bytes(sub[2], sub[1], sub[0], 255u8, sub[5], sub[4], sub[3], 255u8);
        } else {
            assert(w == pack8(sub[0], sub[1], sub[2], 255u8, sub[3], sub[4], sub[5], 255u8));
            lemma_pack8_bytes(sub[0], sub[1], sub[2], 255u8, sub[3], sub[4], sub[5], 255u8);
        }
    }
    store8(dst, i, w);
    proof {
        lemma_expand3to4_at(sub, reverse, 0);
        lemma_expand3to4_at(sub, reverse, 1);
        assert(dst@ =~= expand3to4_region(src@, j as int, origd, i as int, 2, reverse));
    }
}

} // verus!
