//! Row kernels: each transforms one run of `count` pixels, dispatching on
//! the capability tier it is handed. Every kernel's contract pins the exact
//! bytes produced and never mentions the tier, so all tiers are
//! byte-identical by construction. The scalar loops are the reference
//! implementation; they are also the remainder path of the wide kernels
//! and the whole implementation of those operations for which the plain
//! loop already compiles to competitive code, so the wide tier
//! intentionally falls back to it there.

use vstd::prelude::*;

use crate::caps::Caps;
use crate::caps::Tier;
use crate::check::strided_ok;
use crate::pixel::copy_swap3_strided_spec;
use crate::pixel::copy_swap4_strided_spec;
use crate::pixel::expand1to4_strided_spec;
use crate::pixel::expand2to4_strided_spec;
use crate::pixel::expand3to4_strided_spec;
use crate::pixel::fill4_strided_spec;
use crate::pixel::lemma_row_bounds;
use crate::pixel::lemma_rows_written_len;
use crate::pixel::lemma_rows_written_tail;
use crate::pixel::rows_written;
use crate::pixel::strip4to3_strided_spec;
use crate::pixel::swap3_strided_spec;
use crate::pixel::swap4_strided_spec;
use crate::pixel::copy_swap3_region;
use crate::pixel::copy_swap4_region;
use crate::pixel::expand1to4_byte;
use crate::pixel::expand1to4_region;
use crate::pixel::expand2to4_byte;
use crate::pixel::expand2to4_region;
use crate::pixel::expand3to4_byte;
use crate::pixel::expand3to4_region;
use crate::pixel::fill4_byte;
use crate::pixel::fill4_region;
use crate::pixel::lemma_expand1to4_at;
use crate::pixel::lemma_expand2to4_at;
use crate::pixel::lemma_expand3to4_at;
use crate::pixel::lemma_fill4_at;
use crate::pixel::lemma_strip4to3_at;
use crate::pixel::lemma_swap3_at;
use crate::pixel::lemma_expand1to4_window;
use crate::pixel::lemma_expand2to4_window;
use crate::pixel::lemma_expand3to4_window;
use crate::pixel::lemma_fill4_window;
use crate::pixel::lemma_swap4_at;
use crate::pixel::lemma_swap4_window;
use crate::pixel::strip4to3_byte;
use crate::pixel::strip4to3_region;
use crate::pixel::swap3_byte;
use crate::pixel::swap3_region;
use crate::pixel::swap4_byte;
use crate::pixel::swap4_region;
use crate::pixel::write_region;
use crate::wide::copy_swap4_chunk8;
use crate::wide::expand1to4_chunk8;
use crate::wide::expand2to4_chunk8;
use crate::wide::expand3to4_chunk8;
use crate::wide::fill4_chunk8;
use crate::wide::swap4_chunk8;

verus! {

/// Swap bytes 0 and 2 of each of `count` 4-byte pixels of `buf` starting at
/// byte `start` (RGBA <-> BGRA), in place. Dispatches once on the
/// capability tier; both tiers meet the same byte-exact contract.
pub fn swap4_row(caps: Caps, buf: &mut [u8], start: usize, count: usize)
    requires
        start + 4 * count <= old(buf)@.len(),
    ensures
        final(buf)@ == swap4_region(old(buf)@, start as int, count as int),
{
    match caps.tier_of() {
        Tier::Wide => swap4_row_wide(buf, start, count),
        Tier::Scalar => swap4_row_scalar(buf, start, count),
    }
}

/// The wide implementation of [`swap4_row`]: two pixels per step through a
/// 64-bit register, the odd remainder pixel done by the scalar step.
fn swap4_row_wide(buf: &mut [u8], start: usize, count: usize)
    requires
        start + 4 * count <= old(buf)@.len(),
    ensures
        final(buf)@ == swap4_region(old(buf)@, start as int, count as int),
{
    let ghost orig = buf@;
    let ghost f = |o: int| swap4_byte(orig.subrange(start as int, start + 4 * count), o);
    proof {
        assert(buf@ =~= write_region(orig, start as int, 0, f));
    }
    let n: usize = buf.len();
    let mut p: usize = 0;
    while p + 2 <= count
        invariant
            p <= count,
            start + 4 * count <= n,
            n == orig.len(),
            buf@ == write_region(orig, start as int, 4 * p as int, f),
            f == (|o: int| swap4_byte(orig.subrange(start as int, start + 4 * count), o)),
        decreases count - p,
    {
        let i = start + 4 * p;
        swap4_chunk8(buf, i);
        proof {
            let sub = orig.subrange(start as int, start + 4 * count);
            let prev = write_region(orig, start as int, 4 * p as int, f);
            assert(prev.subrange(i as int, i + 8) =~= sub.subrange(4 * p as int, 4 * p + 8));
            assert forall|o: int| 0 <= o < 8 implies #[trigger] swap4_byte(
                sub.subrange(4 * p as int, 4 * p + 8),
                o,
            ) == f(4 * p + o) by {
                assert((4 * (p as int)) % 4 == 0) by (nonlinear_arith);
                lemma_swap4_window(sub, 4 * p as int, 8, o);
            }
            assert(buf@ =~= write_region(orig, start as int, 4 * (p + 2) as int, f));
        }
        p = p + 2;
    }
    while p < count
        invariant
            p <= count,
            start + 4 * count <= n,
            n == orig.len(),
            buf@ == write_region(orig, start as int, 4 * p as int, f),
            f == (|o: int| swap4_byte(orig.subrange(start as int, start + 4 * count), o)),
        decreases count - p,
    {
        let i = start + 4 * p;
        let b0 = buf[i];
        let b2 = buf[i + 2];
        buf[i] = b2;
        buf[i + 2] = b0;
        proof {
            lemma_swap4_at(orig.subrange(start as int, start + 4 * count), p as int);
            assert(buf@ =~= write_region(orig, start as int, 4 * (p + 1) as int, f));
        }
        p = p + 1;
    }
    proof {
        assert(buf@ =~= swap4_region(orig, start as int, count as int));
    }
}

/// The scalar implementation of [`swap4_row`]: the reference byte loop.
fn swap4_row_scalar(buf: &mut [u8], start: usize, count: usize)
    requires
        start + 4 * count <= old(buf)@.len(),
    ensures
        final(buf)@ == swap4_region(old(buf)@, start as int, count as int),
{
    let ghost orig = buf@;
    let ghost f = |o: int| swap4_byte(orig.subrange(start as int, start + 4 * count), o);
    proof {
        assert(buf@ =~= write_region(orig, start as int, 0, f));
    }
    let n: usize = buf.len();
    let mut p: usize = 0;
    while p < count
        invariant
            p <= count,
            start + 4 * count <= n,
            n == orig.len(),
            buf@ == write_region(orig, start as int, 4 * p as int, f),
            f == (|o: int| swap4_byte(orig.subrange(start as int, start + 4 * count), o)),
        decreases count - p,
    {
        let i = start + 4 * p;
        let b0 = buf[i];
        let b2 = buf[i + 2];
        buf[i] = b2;
        buf[i + 2] = b0;
        proof {
            lemma_swap4_at(orig.subrange(start as int, start + 4 * count), p as int);
            assert(buf@ =~= write_region(orig, start as int, 4 * (p + 1) as int, f));
        }
        p = p + 1;
    }
    proof {
        assert(buf@ =~= swap4_region(orig, start as int, count as int));
    }
}

/// Set byte 3 (alpha) of each of `count` 4-byte pixels of `buf` starting at
/// byte `start` to 255, in place; bytes 0..=2 are untouched. Dispatches
/// once on the capability tier; both tiers meet the same contract.
pub fn fill_alpha_row(caps: Caps, buf: &mut [u8], start: usize, count: usize)
    requires
        start + 4 * count <= old(buf)@.len(),
    ensures
        final(buf)@ == fill4_region(old(buf)@, start as int, count as int),
{
    match caps.tier_of() {
        Tier::Wide => fill_alpha_row_wide(buf, start, count),
        Tier::Scalar => fill_alpha_row_scalar(buf, start, count),
    }
}

/// The wide implementation of [`fill_alpha_row`]: two pixels per step
/// through a 64-bit register, the odd remainder pixel done byte by byte.
fn fill_alpha_row_wide(buf: &mut [u8], start: usize, count: usize)
    requires
        start + 4 * count <= old(buf)@.len(),
    ensures
        final(buf)@ == fill4_region(old(buf)@, start as int, count as int),
{
    let ghost orig = buf@;
    let ghost f = |o: int| fill4_byte(orig.subrange(start as int, start + 4 * count), o);
    proof {
        assert(buf@ =~= write_region(orig, start as int, 0, f));
    }
    let n: usize = buf.len();
    let mut p: usize = 0;
    while p + 2 <= count
        invariant
            p <= count,
            start + 4 * count <= n,
            n == orig.len(),
            buf@ == write_region(orig, start as int, 4 * p as int, f),
            f == (|o: int| fill4_byte(orig.subrange(start as int, start + 4 * count), o)),
        decreases count - p,
    {
        let i = start + 4 * p;
        fill4_chunk8(buf, i);
        proof {
            let sub = orig.subrange(start as int, start + 4 * count);
            let prev = write_region(orig, start as int, 4 * p as int, f);
            assert(prev.subrange(i as int, i + 8) =~= sub.subrange(4 * p as int, 4 * p + 8));
            assert forall|o: int| 0 <= o < 8 implies #[trigger] fill4_byte(
                sub.subrange(4 * p as int, 4 * p + 8),
                o,
            ) == f(4 * p + o) by {
                assert((4 * (p as int)) % 4 == 0) by (nonlinear_arith);
                lemma_fill4_window(sub, 4 * p as int, 8, o);
            }
            assert(buf@ =~= write_region(orig, start as int, 4 * (p + 2) as int, f));
        }
        p = p + 2;
    }
    while p < count
        invariant
            p <= count,
            start + 4 * count <= n,
            n == orig.len(),
            buf@ == write_region(orig, start as int, 4 * p as int, f),
            f == (|o: int| fill4_byte(orig.subrange(start as int, start + 4 * count), o)),
        decreases count - p,
    {
        let i = start + 4 * p;
        buf[i + 3] = 255;
        proof {
            lemma_fill4_at(orig.subrange(start as int, start + 4 * count), p as int);
            assert(buf@ =~= write_region(orig, start as int, 4 * (p + 1) as int, f));
        }
        p = p + 1;
    }
    proof {
        assert(buf@ =~= fill4_region(orig, start as int, count as int));
    }
}

/// The scalar implementation of [`fill_alpha_row`]: the reference loop.
fn fill_alpha_row_scalar(buf: &mut [u8], start: usize, count: usize)
    requires
        start + 4 * count <= old(buf)@.len(),
    ensures
        final(buf)@ == fill4_region(old(buf)@, start as int, count as int),
{
    let ghost orig = buf@;
    let ghost f = |o: int| fill4_byte(orig.subrange(start as int, start + 4 * count), o);
    proof {
        assert(buf@ =~= write_region(orig, start as int, 0, f));
    }
    let n: usize = buf.len();
    let mut p: usize = 0;
    while p < count
        invariant
            p <= count,
            start + 4 * count <= n,
            n == orig.len(),
            buf@ == write_region(orig, start as int, 4 * p as int, f),
            f == (|o: int| fill4_byte(orig.subrange(start as int, start + 4 * count), o)),
        decreases count - p,
    {
        let i = start + 4 * p;
        buf[i + 3] = 255;
        proof {
            lemma_fill4_at(orig.subrange(start as int, start + 4 * count), p as int);
            assert(buf@ =~= write_region(orig, start as int, 4 * (p + 1) as int, f));
        }
        p = p + 1;
    }
    proof {
        assert(buf@ =~= fill4_region(orig, start as int, count as int));
    }
}

/// Swap bytes 0 and 2 of each of `count` 3-byte pixels of `buf` starting at
/// byte `start` (RGB <-> BGR), in place. Every tier uses the byte loop:
/// for 3-byte pixels the plain loop already compiles well, so the wide
/// tier intentionally falls back to it.
pub fn swap3_row(caps: Caps, buf: &mut [u8], start: usize, count: usize)
    requires
        start + 3 * count <= old(buf)@.len(),
    ensures
        final(buf)@ == swap3_region(old(buf)@, start as int, count as int),
{
    let ghost orig = buf@;
    let ghost f = |o: int| swap3_byte(orig.subrange(start as int, start + 3 * count), o);
    proof {
        assert(buf@ =~= write_region(orig, start as int, 0, f));
    }
    let n: usize = buf.len();
    let mut p: usize = 0;
    while p < count
        invariant
            p <= count,
            start + 3 * count <= n,
            n == orig.len(),
            buf@ == write_region(orig, start as int, 3 * p as int, f),
            f == (|o: int| swap3_byte(orig.subrange(start as int, start + 3 * count), o)),
        decreases count - p,
    {
        let i = start + 3 * p;
        let b0 = buf[i];
        let b2 = buf[i + 2];
        buf[i] = b2;
        buf[i + 2] = b0;
        proof {
            lemma_swap3_at(orig.subrange(start as int, start + 3 * count), p as int);
            assert(buf@ =~= write_region(orig, start as int, 3 * (p + 1) as int, f));
        }
        p = p + 1;
    }
    proof {
        assert(buf@ =~= swap3_region(orig, start as int, count as int));
    }
}

/// Copy `count` 4-byte pixels from `src` (at `sstart`) to `dst` (at
/// `dstart`), swapping bytes 0 and 2 of each pixel. Dispatches once on the
/// capability tier; both tiers meet the same byte-exact contract.
pub fn copy_swap4_row(caps: Caps, src: &[u8], dst: &mut [u8], sstart: usize, dstart: usize, count: usize)
    requires
        sstart + 4 * count <= src@.len(),
        dstart + 4 * count <= old(dst)@.len(),
    ensures
        final(dst)@ == copy_swap4_region(src@, sstart as int, old(dst)@, dstart as int, count as int),
{
    match caps.tier_of() {
        Tier::Wide => copy_swap4_row_wide(src, dst, sstart, dstart, count),
        Tier::Scalar => copy_swap4_row_scalar(src, dst, sstart, dstart, count),
    }
}

/// The wide implementation of [`copy_swap4_row`]: two pixels per step
/// through a 64-bit register, the odd remainder pixel copied byte by byte.
fn copy_swap4_row_wide(src: &[u8], dst: &mut [u8], sstart: usize, dstart: usize, count: usize)
    requires
        sstart + 4 * count <= src@.len(),
        dstart + 4 * count <= old(dst)@.len(),
    ensures
        final(dst)@ == copy_swap4_region(src@, sstart as int, old(dst)@, dstart as int, count as int),
{
    let ghost origd = dst@;
    let ghost f = |o: int| swap4_byte(src@.subrange(sstart as int, sstart + 4 * count), o);
    proof {
        assert(dst@ =~= write_region(origd, dstart as int, 0, f));
    }
    let n: usize = dst.len();
    let sn: usize = src.len();
    let mut p: usize = 0;
    while p + 2 <= count
        invariant
            p <= count,
            dstart + 4 * count <= n,
            sstart + 4 * count <= sn,
            n == origd.len(),
            sn == src@.len(),
            dst@ == write_region(origd, dstart as int, 4 * p as int, f),
            f == (|o: int| swap4_byte(src@.subrange(sstart as int, sstart + 4 * count), o)),
        decreases count - p,
    {
        let j = sstart + 4 * p;
        let i = dstart + 4 * p;
        copy_swap4_chunk8(src, dst, j, i);
        proof {
            let sub = src@.subrange(sstart as int, sstart + 4 * count);
            assert(src@.subrange(j as int, j + 8) =~= sub.subrange(4 * p as int, 4 * p + 8));
            assert forall|o: int| 0 <= o < 8 implies #[trigger] swap4_byte(
                sub.subrange(4 * p as int, 4 * p + 8),
                o,
            ) == f(4 * p + o) by {
                assert((4 * (p as int)) % 4 == 0) by (nonlinear_arith);
                lemma_swap4_window(sub, 4 * p as int, 8, o);
            }
            assert(dst@ =~= write_region(origd, dstart as int, 4 * (p + 2) as int, f));
        }
        p = p + 2;
    }
    while p < count
        invariant
            p <= count,
            dstart + 4 * count <= n,
            sstart + 4 * count <= sn,
            n == origd.len(),
            sn == src@.len(),
            dst@ == write_region(origd, dstart as int, 4 * p as int, f),
            f == (|o: int| swap4_byte(src@.subrange(sstart as int, sstart + 4 * count), o)),
        decreases count - p,
    {
        let j = sstart + 4 * p;
        let i = dstart + 4 * p;
        let s0 = src[j];
        let s1 = src[j + 1];
        let s2 = src[j + 2];
        let s3 = src[j + 3];
        dst[i] = s2;
        dst[i + 1] = s1;
        dst[i + 2] = s0;
        dst[i + 3] = s3;
        proof {
            lemma_swap4_at(src@.subrange(sstart as int, sstart + 4 * count), p as int);
            assert(dst@ =~= write_region(origd, dstart as int, 4 * (p + 1) as int, f));
        }
        p = p + 1;
    }
    proof {
        assert(dst@ =~= copy_swap4_region(src@, sstart as int, origd, dstart as int, count as int));
    }
}

/// The scalar implementation of [`copy_swap4_row`]: the reference loop.
fn copy_swap4_row_scalar(src: &[u8], dst: &mut [u8], sstart: usize, dstart: usize, count: usize)
    requires
        sstart + 4 * count <= src@.len(),
        dstart + 4 * count <= old(dst)@.len(),
    ensures
        final(dst)@ == copy_swap4_region(src@, sstart as int, old(dst)@, dstart as int, count as int),
{
    let ghost origd = dst@;
    let ghost f = |o: int| swap4_byte(src@.subrange(sstart as int, sstart + 4 * count), o);
    proof {
        assert(dst@ =~= write_region(origd, dstart as int, 0, f));
    }
    let n: usize = dst.len();
    let sn: usize = src.len();
    let mut p: usize = 0;
    while p < count
        invariant
            p <= count,
            dstart + 4 * count <= n,
            sstart + 4 * count <= sn,
            n == origd.len(),
            sn == src@.len(),
            dst@ == write_region(origd, dstart as int, 4 * p as int, f),
            f == (|o: int| swap4_byte(src@.subrange(sstart as int, sstart + 4 * count), o)),
        decreases count - p,
    {
        let j = sstart + 4 * p;
        let i = dstart + 4 * p;
        let s0 = src[j];
        let s1 = src[j + 1];
        let s2 = src[j + 2];
        let s3 = src[j + 3];
        dst[i] = s2;
        dst[i + 1] = s1;
        dst[i + 2] = s0;
        dst[i + 3] = s3;
        proof {
            lemma_swap4_at(src@.subrange(sstart as int, sstart + 4 * count), p as int);
            assert(dst@ =~= write_region(origd, dstart as int, 4 * (p + 1) as int, f));
        }
        p = p + 1;
    }
    proof {
        assert(dst@ =~= copy_swap4_region(src@, sstart as int, origd, dstart as int, count as int));
    }
}

/// Copy `count` 3-byte pixels from `src` (at `sstart`) to `dst` (at
/// `dstart`), swapping bytes 0 and 2 of each pixel. Every tier uses the
/// byte loop: 3-byte pixels do not align with a wide register, and the
/// plain loop already compiles well.
pub fn copy_swap3_row(caps: Caps, src: &[u8], dst: &mut [u8], sstart: usize, dstart: usize, count: usize)
    requires
        sstart + 3 * count <= src@.len(),
        dstart + 3 * count <= old(dst)@.len(),
    ensures
        final(dst)@ == copy_swap3_region(src@, sstart as int, old(dst)@, dstart as int, count as int),
{
    let ghost origd = dst@;
    let ghost f = |o: int| swap3_byte(src@.subrange(sstart as int, sstart + 3 * count), o);
    proof {
        assert(dst@ =~= write_region(origd, dstart as int, 0, f));
    }
    let n: usize = dst.len();
    let sn: usize = src.len();
    let mut p: usize = 0;
    while p < count
        invariant
            p <= count,
            dstart + 3 * count <= n,
            sstart + 3 * count <= sn,
            n == origd.len(),
            sn == src@.len(),
            dst@ == write_region(origd, dstart as int, 3 * p as int, f),
            f == (|o: int| swap3_byte(src@.subrange(sstart as int, sstart + 3 * count), o)),
        decreases count - p,
    {
        let j = sstart + 3 * p;
        let i = dstart + 3 * p;
        let s0 = src[j];
        let s1 = src[j + 1];
        let s2 = src[j + 2];
        dst[i] = s2;
        dst[i + 1] = s1;
        dst[i + 2] = s0;
        proof {
            lemma_swap3_at(src@.subrange(sstart as int, sstart + 3 * count), p as int);
            assert(dst@ =~= write_region(origd, dstart as int, 3 * (p + 1) as int, f));
        }
        p = p + 1;
    }
    proof {
        assert(dst@ =~= copy_swap3_region(src@, sstart as int, origd, dstart as int, count as int));
    }
}

/// Widen `count` 3-byte pixels from `src` (at `sstart`) to 4-byte pixels in
/// `dst` (at `dstart`): channels reversed when `reverse`, then alpha 255.
/// Dispatches once on the capability tier; both tiers meet the same
/// byte-exact contract.
pub fn expand3to4_row(
    caps: Caps,
    src: &[u8],
    dst: &mut [u8],
    sstart: usize,
    dstart: usize,
    count: usize,
    reverse: bool,
)
    requires
        sstart + 3 * count <= src@.len(),
        dstart + 4 * count <= old(dst)@.len(),
    ensures
        final(dst)@ == expand3to4_region(
            src@,
            sstart as int,
            old(dst)@,
            dstart as int,
            count as int,
            reverse,
        ),
{
    match caps.tier_of() {
        Tier::Wide => expand3to4_row_wide(src, dst, sstart, dstart, count, reverse),
        Tier::Scalar => expand3to4_row_scalar(src, dst, sstart, dstart, count, reverse),
    }
}

/// The wide implementation of [`expand3to4_row`]: two output pixels per
/// step assembled in a 64-bit register, the odd remainder pixel done byte
/// by byte.
fn expand3to4_row_wide(
    src: &[u8],
    dst: &mut [u8],
    sstart: usize,
    dstart: usize,
    count: usize,
    reverse: bool,
)
    requires
        sstart + 3 * count <= src@.len(),
        dstart + 4 * count <= old(dst)@.len(),
    ensures
        final(dst)@ == expand3to4_region(
            src@,
            sstart as int,
            old(dst)@,
            dstart as int,
            count as int,
            reverse,
        ),
{
    let ghost origd = dst@;
    let ghost f = |o: int| expand3to4_byte(
        src@.subrange(sstart as int, sstart + 3 * count),
        reverse,
        o,
    );
    proof {
        assert(dst@ =~= write_region(origd, dstart as int, 0, f));
    }
    let n: usize = dst.len();
    let sn: usize = src.len();
    let mut p: usize = 0;
    while p + 2 <= count
        invariant
            p <= count,
            dstart + 4 * count <= n,
            sstart + 3 * count <= sn,
            n == origd.len(),
            sn == src@.len(),
            dst@ == write_region(origd, dstart as int, 4 * p as int, f),
            f == (|o: int| expand3to4_byte(
                src@.subrange(sstart as int, sstart + 3 * count),
                reverse,
                o,
            )),
        decreases count - p,
    {
        let j = sstart + 3 * p;
        let i = dstart + 4 * p;
        expand3to4_chunk8(src, dst, j, i, reverse);
        proof {
            let sub = src@.subrange(sstart as int, sstart + 3 * count);
            assert(src@.subrange(j as int, j + 6) =~= sub.subrange(3 * p as int, 3 * p + 6));
            assert forall|o: int| 0 <= o < 8 implies #[trigger] expand3to4_byte(
                sub.subrange(3 * p as int, 3 * p + 6),
                reverse,
                o,
            ) == f(4 * p + o) by {
                lemma_expand3to4_window(sub, reverse, p as int, o);
            }
            assert(dst@ =~= write_region(origd, dstart as int, 4 * (p + 2) as int, f));
        }
        p = p + 2;
    }
    while p < count
        invariant
            p <= count,
            dstart + 4 * count <= n,
            sstart + 3 * count <= sn,
            n == origd.len(),
            sn == src@.len(),
            dst@ == write_region(origd, dstart as int, 4 * p as int, f),
            f == (|o: int| expand3to4_byte(
                src@.subrange(sstart as int, sstart + 3 * count),
                reverse,
                o,
            )),
        decreases count - p,
    {
        let j = sstart + 3 * p;
        let i = dstart + 4 * p;
        let s0 = src[j];
        let s1 = src[j + 1];
        let s2 = src[j + 2];
        if reverse {
            dst[i] = s2;
            dst[i + 1] = s1;
            dst[i + 2] = s0;
        } else {
            dst[i] = s0;
            dst[i + 1] = s1;
            dst[i + 2] = s2;
        }
        dst[i + 3] = 255;
        proof {
            lemma_expand3to4_at(
                src@.subrange(sstart as int, sstart + 3 * count),
                reverse,
                p as int,
            );
            assert(dst@ =~= write_region(origd, dstart as int, 4 * (p + 1) as int, f));
        }
        p = p + 1;
    }
    proof {
        assert(dst@ =~= expand3to4_region(
            src@,
            sstart as int,
            origd,
            dstart as int,
            count as int,
            reverse,
        ));
    }
}

/// The scalar implementation of [`expand3to4_row`]: the reference loop.
fn expand3to4_row_scalar(
    src: &[u8],
    dst: &mut [u8],
    sstart: usize,
    dstart: usize,
    count: usize,
    reverse: bool,
)
    requires
        sstart + 3 * count <= src@.len(),
        dstart + 4 * count <= old(dst)@.len(),
    ensures
        final(dst)@ == expand3to4_region(
            src@,
            sstart as int,
            old(dst)@,
            dstart as int,
            count as int,
            reverse,
        ),
{
    let ghost origd = dst@;
    let ghost f = |o: int| expand3to4_byte(
        src@.subrange(sstart as int, sstart + 3 * count),
        reverse,
        o,
    );
    proof {
        assert(dst@ =~= write_region(origd, dstart as int, 0, f));
    }
    let n: usize = dst.len();
    let sn: usize = src.len();
    let mut p: usize = 0;
    while p < count
        invariant
            p <= count,
            dstart + 4 * count <= n,
            sstart + 3 * count <= sn,
            n == origd.len(),
            sn == src@.len(),
            dst@ == write_region(origd, dstart as int, 4 * p as int, f),
            f == (|o: int| expand3to4_byte(
                src@.subrange(sstart as int, sstart + 3 * count),
                reverse,
                o,
            )),
        decreases count - p,
    {
        let j = sstart + 3 * p;
        let i = dstart + 4 * p;
        let s0 = src[j];
        let s1 = src[j + 1];
        let s2 = src[j + 2];
        if reverse {
            dst[i] = s2;
            dst[i + 1] = s1;
            dst[i + 2] = s0;
        } else {
            dst[i] = s0;
            dst[i + 1] = s1;
            dst[i + 2] = s2;
        }
        dst[i + 3] = 255;
        proof {
            lemma_expand3to4_at(
                src@.subrange(sstart as int, sstart + 3 * count),
                reverse,
                p as int,
            );
            assert(dst@ =~= write_region(origd, dstart as int, 4 * (p + 1) as int, f));
        }
        p = p + 1;
    }
    proof {
        assert(dst@ =~= expand3to4_region(
            src@,
            sstart as int,
            origd,
            dstart as int,
            count as int,
            reverse,
        ));
    }
}

/// Widen `count` gray bytes from `src` (at `sstart`) to `[g, g, g, 255]`
/// pixels in `dst` (at `dstart`). Dispatches once on the capability tier;
/// both tiers meet the same byte-exact contract.
pub fn expand1to4_row(caps: Caps, src: &[u8], dst: &mut [u8], sstart: usize, dstart: usize, count: usize)
    requires
        sstart + count <= src@.len(),
        dstart + 4 * count <= old(dst)@.len(),
    ensures
        final(dst)@ == expand1to4_region(src@, sstart as int, old(dst)@, dstart as int, count as int),
{
    match caps.tier_of() {
        Tier::Wide => expand1to4_row_wide(src, dst, sstart, dstart, count),
        Tier::Scalar => expand1to4_row_scalar(src, dst, sstart, dstart, count),
    }
}

/// The wide implementation of [`expand1to4_row`]: two output pixels per
/// step assembled in a 64-bit register, the odd remainder pixel done byte
/// by byte.
fn expand1to4_row_wide(src: &[u8], dst: &mut [u8], sstart: usize, dstart: usize, count: usize)
    requires
        sstart + count <= src@.len(),
        dstart + 4 * count <= old(dst)@.len(),
    ensures
        final(dst)@ == expand1to4_region(src@, sstart as int, old(dst)@, dstart as int, count as int),
{
    let ghost origd = dst@;
    let ghost f = |o: int| expand1to4_byte(src@.subrange(sstart as int, sstart + count), o);
    proof {
        assert(dst@ =~= write_region(origd, dstart as int, 0, f));
    }
    let n: usize = dst.len();
    let sn: usize = src.len();
    let mut p: usize = 0;
    while p + 2 <= count
        invariant
            p <= count,
            dstart + 4 * count <= n,
            sstart + count <= sn,
            n == origd.len(),
            sn == src@.len(),
            dst@ == write_region(origd, dstart as int, 4 * p as int, f),
            f == (|o: int| expand1to4_byte(src@.subrange(sstart as int, sstart + count), o)),
        decreases count - p,
    {
        let j = sstart + p;
        let i = dstart + 4 * p;
        expand1to4_chunk8(src, dst, j, i);
        proof {
            let sub = src@.subrange(sstart as int, sstart + count);
            assert(src@.subrange(j as int, j + 2) =~= sub.subrange(p as int, p + 2));
            assert forall|o: int| 0 <= o < 8 implies #[trigger] expand1to4_byte(
                sub.subrange(p as int, p + 2),
                o,
            ) == f(4 * p + o) by {
                lemma_expand1to4_window(sub, p as int, o);
            }
            assert(dst@ =~= write_region(origd, dstart as int, 4 * (p + 2) as int, f));
        }
        p = p + 2;
    }
    while p < count
        invariant
            p <= count,
            dstart + 4 * count <= n,
            sstart + count <= sn,
            n == origd.len(),
            sn == src@.len(),
            dst@ == write_region(origd, dstart as int, 4 * p as int, f),
            f == (|o: int| expand1to4_byte(src@.subrange(sstart as int, sstart + count), o)),
        decreases count - p,
    {
        let g = src[sstart + p];
        let i = dstart + 4 * p;
        dst[i] = g;
        dst[i + 1] = g;
        dst[i + 2] = g;
        dst[i + 3] = 255;
        proof {
            lemma_expand1to4_at(src@.subrange(sstart as int, sstart + count), p as int);
            assert(dst@ =~= write_region(origd, dstart as int, 4 * (p + 1) as int, f));
        }
        p = p + 1;
    }
    proof {
        assert(dst@ =~= expand1to4_region(src@, sstart as int, origd, dstart as int, count as int));
    }
}

/// The scalar implementation of [`expand1to4_row`]: the reference loop.
fn expand1to4_row_scalar(src: &[u8], dst: &mut [u8], sstart: usize, dstart: usize, count: usize)
    requires
        sstart + count <= src@.len(),
        dstart + 4 * count <= old(dst)@.len(),
    ensures
        final(dst)@ == expand1to4_region(src@, sstart as int, old(dst)@, dstart as int, count as int),
{
    let ghost origd = dst@;
    let ghost f = |o: int| expand1to4_byte(src@.subrange(sstart as int, sstart + count), o);
    proof {
        assert(dst@ =~= write_region(origd, dstart as int, 0, f));
    }
    let n: usize = dst.len();
    let sn: usize = src.len();
    let mut p: usize = 0;
    while p < count
        invariant
            p <= count,
            dstart + 4 * count <= n,
            sstart + count <= sn,
            n == origd.len(),
            sn == src@.len(),
            dst@ == write_region(origd, dstart as int, 4 * p as int, f),
            f == (|o: int| expand1to4_byte(src@.subrange(sstart as int, sstart + count), o)),
        decreases count - p,
    {
        let g = src[sstart + p];
        let i = dstart + 4 * p;
        dst[i] = g;
        dst[i + 1] = g;
        dst[i + 2] = g;
        dst[i + 3] = 255;
        proof {
            lemma_expand1to4_at(src@.subrange(sstart as int, sstart + count), p as int);
            assert(dst@ =~= write_region(origd, dstart as int, 4 * (p + 1) as int, f));
        }
        p = p + 1;
    }
    proof {
        assert(dst@ =~= expand1to4_region(src@, sstart as int, origd, dstart as int, count as int));
    }
}

/// Widen `count` gray+alpha pairs from `src` (at `sstart`) to
/// `[g, g, g, a]` pixels in `dst` (at `dstart`). Dispatches once on the
/// capability tier; both tiers meet the same byte-exact contract.
pub fn expand2to4_row(caps: Caps, src: &[u8], dst: &mut [u8], sstart: usize, dstart: usize, count: usize)
    requires
        sstart + 2 * count <= src@.len(),
        dstart + 4 * count <= old(dst)@.len(),
    ensures
        final(dst)@ == expand2to4_region(src@, sstart as int, old(dst)@, dstart as int, count as int),
{
    match caps.tier_of() {
        Tier::Wide => expand2to4_row_wide(src, dst, sstart, dstart, count),
        Tier::Scalar => expand2to4_row_scalar(src, dst, sstart, dstart, count),
    }
}

/// The wide implementation of [`expand2to4_row`]: two output pixels per
/// step assembled in a 64-bit register, the odd remainder pixel done byte
/// by byte.
fn expand2to4_row_wide(src: &[u8], dst: &mut [u8], sstart: usize, dstart: usize, count: usize)
    requires
        sstart + 2 * count <= src@.len(),
        dstart + 4 * count <= old(dst)@.len(),
    ensures
        final(dst)@ == expand2to4_region(src@, sstart as int, old(dst)@, dstart as int, count as int),
{
    let ghost origd = dst@;
    let ghost f = |o: int| expand2to4_byte(src@.subrange(sstart as int, sstart + 2 * count), o);
    proof {
        assert(dst@ =~= write_region(origd, dstart as int, 0, f));
    }
    let n: usize = dst.len();
    let sn: usize = src.len();
    let mut p: usize = 0;
    while p + 2 <= count
        invariant
            p <= count,
            dstart + 4 * count <= n,
            sstart + 2 * count <= sn,
            n == origd.len(),
            sn == src@.len(),
            dst@ == write_region(origd, dstart as int, 4 * p as int, f),
            f == (|o: int| expand2to4_byte(src@.subrange(sstart as int, sstart + 2 * count), o)),
        decreases count - p,
    {
        let j = sstart + 2 * p;
        let i = dstart + 4 * p;
        expand2to4_chunk8(src, dst, j, i);
        proof {
            let sub = src@.subrange(sstart as int, sstart + 2 * count);
            assert(src@.subrange(j as int, j + 4) =~= sub.subrange(2 * p as int, 2 * p + 4));
            assert forall|o: int| 0 <= o < 8 implies #[trigger] expand2to4_byte(
                sub.subrange(2 * p as int, 2 * p + 4),
                o,
            ) == f(4 * p + o) by {
                lemma_expand2to4_window(sub, p as int, o);
            }
            assert(dst@ =~= write_region(origd, dstart as int, 4 * (p + 2) as int, f));
        }
        p = p + 2;
    }
    while p < count
        invariant
            p <= count,
            dstart + 4 * count <= n,
            sstart + 2 * count <= sn,
            n == origd.len(),
            sn == src@.len(),
            dst@ == write_region(origd, dstart as int, 4 * p as int, f),
            f == (|o: int| expand2to4_byte(src@.subrange(sstart as int, sstart + 2 * count), o)),
        decreases count - p,
    {
        let j = sstart + 2 * p;
        let i = dstart + 4 * p;
        let g = src[j];
        let a = src[j + 1];
        dst[i] = g;
        dst[i + 1] = g;
        dst[i + 2] = g;
        dst[i + 3] = a;
        proof {
            lemma_expand2to4_at(src@.subrange(sstart as int, sstart + 2 * count), p as int);
            assert(dst@ =~= write_region(origd, dstart as int, 4 * (p + 1) as int, f));
        }
        p = p + 1;
    }
    proof {
        assert(dst@ =~= expand2to4_region(src@, sstart as int, origd, dstart as int, count as int));
    }
}

/// The scalar implementation of [`expand2to4_row`]: the reference loop.
fn expand2to4_row_scalar(src: &[u8], dst: &mut [u8], sstart: usize, dstart: usize, count: usize)
    requires
        sstart + 2 * count <= src@.len(),
        dstart + 4 * count <= old(dst)@.len(),
    ensures
        final(dst)@ == expand2to4_region(src@, sstart as int, old(dst)@, dstart as int, count as int),
{
    let ghost origd = dst@;
    let ghost f = |o: int| expand2to4_byte(src@.subrange(sstart as int, sstart + 2 * count), o);
    proof {
        assert(dst@ =~= write_region(origd, dstart as int, 0, f));
    }
    let n: usize = dst.len();
    let sn: usize = src.len();
    let mut p: usize = 0;
    while p < count
        invariant
            p <= count,
            dstart + 4 * count <= n,
            sstart + 2 * count <= sn,
            n == origd.len(),
            sn == src@.len(),
            dst@ == write_region(origd, dstart as int, 4 * p as int, f),
            f == (|o: int| expand2to4_byte(src@.subrange(sstart as int, sstart + 2 * count), o)),
        decreases count - p,
    {
        let j = sstart + 2 * p;
        let i = dstart + 4 * p;
        let g = src[j];
        let a = src[j + 1];
        dst[i] = g;
        dst[i + 1] = g;
        dst[i + 2] = g;
        dst[i + 3] = a;
        proof {
            lemma_expand2to4_at(src@.subrange(sstart as int, sstart + 2 * count), p as int);
            assert(dst@ =~= write_region(origd, dstart as int, 4 * (p + 1) as int, f));
        }
        p = p + 1;
    }
    proof {
        assert(dst@ =~= expand2to4_region(src@, sstart as int, origd, dstart as int, count as int));
    }
}

/// Narrow `count` 4-byte pixels from `src` (at `sstart`) to 3-byte pixels
/// in `dst` (at `dstart`): byte 3 dropped, channels reversed when
/// `reverse`. Every tier uses the byte loop: the 4-to-3 packing does not
/// align with a wide register.
pub fn strip4to3_row(
    caps: Caps,
    src: &[u8],
    dst: &mut [u8],
    sstart: usize,
    dstart: usize,
    count: usize,
    reverse: bool,
)
    requires
        sstart + 4 * count <= src@.len(),
        dstart + 3 * count <= old(dst)@.len(),
    ensures
        final(dst)@ == strip4to3_region(
            src@,
            sstart as int,
            old(dst)@,
            dstart as int,
            count as int,
            reverse,
        ),
{
    let ghost origd = dst@;
    let ghost f = |o: int| strip4to3_byte(
        src@.subrange(sstart as int, sstart + 4 * count),
        reverse,
        o,
    );
    proof {
        assert(dst@ =~= write_region(origd, dstart as int, 0, f));
    }
    let n: usize = dst.len();
    let sn: usize = src.len();
    let mut p: usize = 0;
    while p < count
        invariant
            p <= count,
            dstart + 3 * count <= n,
            sstart + 4 * count <= sn,
            n == origd.len(),
            sn == src@.len(),
            dst@ == write_region(origd, dstart as int, 3 * p as int, f),
            f == (|o: int| strip4to3_byte(
                src@.subrange(sstart as int, sstart + 4 * count),
                reverse,
                o,
            )),
        decreases count - p,
    {
        let j = sstart + 4 * p;
        let i = dstart + 3 * p;
        let s0 = src[j];
        let s1 = src[j + 1];
        let s2 = src[j + 2];
        if reverse {
            dst[i] = s2;
            dst[i + 1] = s1;
            dst[i + 2] = s0;
        } else {
            dst[i] = s0;
            dst[i + 1] = s1;
            dst[i + 2] = s2;
        }
        proof {
            lemma_strip4to3_at(
                src@.subrange(sstart as int, sstart + 4 * count),
                reverse,
                p as int,
            );
            assert(dst@ =~= write_region(origd, dstart as int, 3 * (p + 1) as int, f));
        }
        p = p + 1;
    }
    proof {
        assert(dst@ =~= strip4to3_region(
            src@,
            sstart as int,
            origd,
            dstart as int,
            count as int,
            reverse,
        ));
    }
}

// ---------------------------------------------------------------------------
// Strided drivers: one kernel invocation per row, capability resolved by the
// caller once per public call.
// ---------------------------------------------------------------------------

/// Swap bytes 0 and 2 of every pixel of a strided `w`x`h` 4-byte-pixel
/// image in place, one row at a time; padding bytes are never touched.
pub fn swap4_rows(caps: Caps, buf: &mut [u8], w: usize, h: usize, stride: usize)
    requires
        strided_ok(old(buf)@.len() as int, w as int, h as int, stride as int, 4),
    ensures
        final(buf)@ == swap4_strided_spec(old(buf)@, w as int, h as int, stride as int),
{
    let ghost orig = buf@;
    let ghost sti = stride as int;
    let ghost wi = w as int;
    let ghost g = |y: int, o: int| swap4_byte(orig.subrange(y * sti, y * sti + 4 * wi), o);
    let n: usize = buf.len();
    let mut y: usize = 0;
    while y < h
        invariant
            y <= h,
            strided_ok(orig.len() as int, wi, h as int, sti, 4),
            n == orig.len(),
            wi == w as int && sti == stride as int,
            buf@ == rows_written(orig, y as int, sti, 4 * wi, g),
            g == (|y: int, o: int| swap4_byte(orig.subrange(y * sti, y * sti + 4 * wi), o)),
        decreases h - y,
    {
        proof {
            lemma_row_bounds(orig.len() as int, wi, h as int, sti, 4, y as int);
            lemma_rows_written_len(orig, y as int, sti, 4 * wi, g);
        }
        let rs = y * stride;
        swap4_row(caps, buf, rs, w);
        proof {
            let yi = y as int;
            let prev = rows_written(orig, yi, sti, 4 * wi, g);
            assert forall|i: int| yi * sti <= i < yi * sti + 4 * wi implies prev[i] == orig[i] by {
                lemma_rows_written_tail(orig, yi, sti, 4 * wi, g, i);
            }
            assert(prev.subrange(yi * sti, yi * sti + 4 * wi) =~= orig.subrange(
                yi * sti,
                yi * sti + 4 * wi,
            ));
            assert(buf@ =~= rows_written(orig, yi + 1, sti, 4 * wi, g));
        }
        y = y + 1;
    }
}

/// Set byte 3 of every pixel of a strided `w`x`h` 4-byte-pixel image to
/// 255 in place, one row at a time; padding bytes are never touched.
pub fn fill4_rows(caps: Caps, buf: &mut [u8], w: usize, h: usize, stride: usize)
    requires
        strided_ok(old(buf)@.len() as int, w as int, h as int, stride as int, 4),
    ensures
        final(buf)@ == fill4_strided_spec(old(buf)@, w as int, h as int, stride as int),
{
    let ghost orig = buf@;
    let ghost sti = stride as int;
    let ghost wi = w as int;
    let ghost g = |y: int, o: int| fill4_byte(orig.subrange(y * sti, y * sti + 4 * wi), o);
    let n: usize = buf.len();
    let mut y: usize = 0;
    while y < h
        invariant
            y <= h,
            strided_ok(orig.len() as int, wi, h as int, sti, 4),
            n == orig.len(),
            wi == w as int && sti == stride as int,
            buf@ == rows_written(orig, y as int, sti, 4 * wi, g),
            g == (|y: int, o: int| fill4_byte(orig.subrange(y * sti, y * sti + 4 * wi), o)),
        decreases h - y,
    {
        proof {
            lemma_row_bounds(orig.len() as int, wi, h as int, sti, 4, y as int);
            lemma_rows_written_len(orig, y as int, sti, 4 * wi, g);
        }
        let rs = y * stride;
        fill_alpha_row(caps, buf, rs, w);
        proof {
            let yi = y as int;
            let prev = rows_written(orig, yi, sti, 4 * wi, g);
            assert forall|i: int| yi * sti <= i < yi * sti + 4 * wi implies prev[i] == orig[i] by {
                lemma_rows_written_tail(orig, yi, sti, 4 * wi, g, i);
            }
            assert(prev.subrange(yi * sti, yi * sti + 4 * wi) =~= orig.subrange(
                yi * sti,
                yi * sti + 4 * wi,
            ));
            assert(buf@ =~= rows_written(orig, yi + 1, sti, 4 * wi, g));
        }
        y = y + 1;
    }
}

/// Swap bytes 0 and 2 of every pixel of a strided `w`x`h` 3-byte-pixel
/// image in place, one row at a time; padding bytes are never touched.
pub fn swap3_rows(caps: Caps, buf: &mut [u8], w: usize, h: usize, stride: usize)
    requires
        strided_ok(old(buf)@.len() as int, w as int, h as int, stride as int, 3),
    ensures
        final(buf)@ == swap3_strided_spec(old(buf)@, w as int, h as int, stride as int),
{
    let ghost orig = buf@;
    let ghost sti = stride as int;
    let ghost wi = w as int;
    let ghost g = |y: int, o: int| swap3_byte(orig.subrange(y * sti, y * sti + 3 * wi), o);
    let n: usize = buf.len();
    let mut y: usize = 0;
    while y < h
        invariant
            y <= h,
            strided_ok(orig.len() as int, wi, h as int, sti, 3),
            n == orig.len(),
            wi == w as int && sti == stride as int,
            buf@ == rows_written(orig, y as int, sti, 3 * wi, g),
            g == (|y: int, o: int| swap3_byte(orig.subrange(y * sti, y * sti + 3 * wi), o)),
        decreases h - y,
    {
        proof {
            lemma_row_bounds(orig.len() as int, wi, h as int, sti, 3, y as int);
            lemma_rows_written_len(orig, y as int, sti, 3 * wi, g);
        }
        let rs = y * stride;
        swap3_row(caps, buf, rs, w);
        proof {
            let yi = y as int;
            let prev = rows_written(orig, yi, sti, 3 * wi, g);
            assert forall|i: int| yi * sti <= i < yi * sti + 3 * wi implies prev[i] == orig[i] by {
                lemma_rows_written_tail(orig, yi, sti, 3 * wi, g, i);
            }
            assert(prev.subrange(yi * sti, yi * sti + 3 * wi) =~= orig.subrange(
                yi * sti,
                yi * sti + 3 * wi,
            ));
            assert(buf@ =~= rows_written(orig, yi + 1, sti, 3 * wi, g));
        }
        y = y + 1;
    }
}

/// Copy a strided `w`x`h` 4-byte-pixel image row by row, swapping bytes 0
/// and 2 of every pixel; padding in both buffers is never touched.
pub fn copy_swap4_rows(
    caps: Caps,
    src: &[u8],
    dst: &mut [u8],
    w: usize,
    h: usize,
    ss: usize,
    ds: usize,
)
    requires
        strided_ok(src@.len() as int, w as int, h as int, ss as int, 4),
        strided_ok(old(dst)@.len() as int, w as int, h as int, ds as int, 4),
    ensures
        final(dst)@ == copy_swap4_strided_spec(
            src@,
            old(dst)@,
            w as int,
            h as int,
            ss as int,
            ds as int,
        ),
{
    let ghost origd = dst@;
    let ghost ssi = ss as int;
    let ghost dsi = ds as int;
    let ghost wi = w as int;
    let ghost g = |y: int, o: int| swap4_byte(src@.subrange(y * ssi, y * ssi + 4 * wi), o);
    let n: usize = dst.len();
    let sn: usize = src.len();
    let mut y: usize = 0;
    while y < h
        invariant
            y <= h,
            strided_ok(src@.len() as int, wi, h as int, ssi, 4),
            strided_ok(origd.len() as int, wi, h as int, dsi, 4),
            n == origd.len(),
            sn == src@.len(),
            wi == w as int && ssi == ss as int && dsi == ds as int,
            dst@ == rows_written(origd, y as int, dsi, 4 * wi, g),
            g == (|y: int, o: int| swap4_byte(src@.subrange(y * ssi, y * ssi + 4 * wi), o)),
        decreases h - y,
    {
        proof {
            lemma_row_bounds(src@.len() as int, wi, h as int, ssi, 4, y as int);
            lemma_row_bounds(origd.len() as int, wi, h as int, dsi, 4, y as int);
            lemma_rows_written_len(origd, y as int, dsi, 4 * wi, g);
        }
        let srs = y * ss;
        let drs = y * ds;
        copy_swap4_row(caps, src, dst, srs, drs, w);
        proof {
            assert(dst@ =~= rows_written(origd, y as int + 1, dsi, 4 * wi, g));
        }
        y = y + 1;
    }
}

/// Copy a strided `w`x`h` 3-byte-pixel image row by row, swapping bytes 0
/// and 2 of every pixel; padding in both buffers is never touched.
pub fn copy_swap3_rows(
    caps: Caps,
    src: &[u8],
    dst: &mut [u8],
    w: usize,
    h: usize,
    ss: usize,
    ds: usize,
)
    requires
        strided_ok(src@.len() as int, w as int, h as int, ss as int, 3),
        strided_ok(old(dst)@.len() as int, w as int, h as int, ds as int, 3),
    ensures
        final(dst)@ == copy_swap3_strided_spec(
            src@,
            old(dst)@,
            w as int,
            h as int,
            ss as int,
            ds as int,
        ),
{
    let ghost origd = dst@;
    let ghost ssi = ss as int;
    let ghost dsi = ds as int;
    let ghost wi = w as int;
    let ghost g = |y: int, o: int| swap3_byte(src@.subrange(y * ssi, y * ssi + 3 * wi), o);
    let n: usize = dst.len();
    let sn: usize = src.len();
    let mut y: usize = 0;
    while y < h
        invariant
            y <= h,
            strided_ok(src@.len() as int, wi, h as int, ssi, 3),
            strided_ok(origd.len() as int, wi, h as int, dsi, 3),
            n == origd.len(),
            sn == src@.len(),
            wi == w as int && ssi == ss as int && dsi == ds as int,
            dst@ == rows_written(origd, y as int, dsi, 3 * wi, g),
            g == (|y: int, o: int| swap3_byte(src@.subrange(y * ssi, y * ssi + 3 * wi), o)),
        decreases h - y,
    {
        proof {
            lemma_row_bounds(src@.len() as int, wi, h as int, ssi, 3, y as int);
            lemma_row_bounds(origd.len() as int, wi, h as int, dsi, 3, y as int);
            lemma_rows_written_len(origd, y as int, dsi, 3 * wi, g);
        }
        let srs = y * ss;
        let drs = y * ds;
        copy_swap3_row(caps, src, dst, srs, drs, w);
        proof {
            assert(dst@ =~= rows_written(origd, y as int + 1, dsi, 3 * wi, g));
        }
        y = y + 1;
    }
}

/// Widen a strided `w`x`h` 3-byte-pixel image to 4-byte pixels row by row
/// (reversed when `reverse`, alpha 255); padding is never touched.
pub fn expand3to4_rows(
    caps: Caps,
    src: &[u8],
    dst: &mut [u8],
    w: usize,
    h: usize,
    ss: usize,
    ds: usize,
    reverse: bool,
)
    requires
        strided_ok(src@.len() as int, w as int, h as int, ss as int, 3),
        strided_ok(old(dst)@.len() as int, w as int, h as int, ds as int, 4),
    ensures
        final(dst)@ == expand3to4_strided_spec(
            src@,
            old(dst)@,
            w as int,
            h as int,
            ss as int,
            ds as int,
            reverse,
        ),
{
    let ghost origd = dst@;
    let ghost ssi = ss as int;
    let ghost dsi = ds as int;
    let ghost wi = w as int;
    let ghost g = |y: int, o: int| expand3to4_byte(
        src@.subrange(y * ssi, y * ssi + 3 * wi),
        reverse,
        o,
    );
    let n: usize = dst.len();
    let sn: usize = src.len();
    let mut y: usize = 0;
    while y < h
        invariant
            y <= h,
            strided_ok(src@.len() as int, wi, h as int, ssi, 3),
            strided_ok(origd.len() as int, wi, h as int, dsi, 4),
            n == origd.len(),
            sn == src@.len(),
            wi == w as int && ssi == ss as int && dsi == ds as int,
            dst@ == rows_written(origd, y as int, dsi, 4 * wi, g),
            g == (|y: int, o: int| expand3to4_byte(
                src@.subrange(y * ssi, y * ssi + 3 * wi),
                reverse,
                o,
            )),
        decreases h - y,
    {
        proof {
            lemma_row_bounds(src@.len() as int, wi, h as int, ssi, 3, y as int);
            lemma_row_bounds(origd.len() as int, wi, h as int, dsi, 4, y as int);
            lemma_rows_written_len(origd, y as int, dsi, 4 * wi, g);
        }
        let srs = y * ss;
        let drs = y * ds;
        expand3to4_row(caps, src, dst, srs, drs, w, reverse);
        proof {
            assert(dst@ =~= rows_written(origd, y as int + 1, dsi, 4 * wi, g));
        }
        y = y + 1;
    }
}

/// Widen a strided `w`x`h` gray image to `[g, g, g, 255]` pixels row by
/// row; padding is never touched.
pub fn expand1to4_rows(
    caps: Caps,
    src: &[u8],
    dst: &mut [u8],
    w: usize,
    h: usize,
    ss: usize,
    ds: usize,
)
    requires
        strided_ok(src@.len() as int, w as int, h as int, ss as int, 1),
        strided_ok(old(dst)@.len() as int, w as int, h as int, ds as int, 4),
    ensures
        final(dst)@ == expand1to4_strided_spec(
            src@,
            old(dst)@,
            w as int,
            h as int,
            ss as int,
            ds as int,
        ),
{
    let ghost origd = dst@;
    let ghost ssi = ss as int;
    let ghost dsi = ds as int;
    let ghost wi = w as int;
    let ghost g = |y: int, o: int| expand1to4_byte(src@.subrange(y * ssi, y * ssi + wi), o);
    let n: usize = dst.len();
    let sn: usize = src.len();
    let mut y: usize = 0;
    while y < h
        invariant
            y <= h,
            strided_ok(src@.len() as int, wi, h as int, ssi, 1),
            strided_ok(origd.len() as int, wi, h as int, dsi, 4),
            n == origd.len(),
            sn == src@.len(),
            wi == w as int && ssi == ss as int && dsi == ds as int,
            dst@ == rows_written(origd, y as int, dsi, 4 * wi, g),
            g == (|y: int, o: int| expand1to4_byte(src@.subrange(y * ssi, y * ssi + wi), o)),
        decreases h - y,
    {
        proof {
            lemma_row_bounds(src@.len() as int, wi, h as int, ssi, 1, y as int);
            lemma_row_bounds(origd.len() as int, wi, h as int, dsi, 4, y as int);
            lemma_rows_written_len(origd, y as int, dsi, 4 * wi, g);
        }
        let srs = y * ss;
        let drs = y * ds;
        expand1to4_row(caps, src, dst, srs, drs, w);
        proof {
            assert(dst@ =~= rows_written(origd, y as int + 1, dsi, 4 * wi, g));
        }
        y = y + 1;
    }
}

/// Widen a strided `w`x`h` gray+alpha image to `[g, g, g, a]` pixels row by
/// row; padding is never touched.
pub fn expand2to4_rows(
    caps: Caps,
    src: &[u8],
    dst: &mut [u8],
    w: usize,
    h: usize,
    ss: usize,
    ds: usize,
)
    requires
        strided_ok(src@.len() as int, w as int, h as int, ss as int, 2),
        strided_ok(old(dst)@.len() as int, w as int, h as int, ds as int, 4),
    ensures
        final(dst)@ == expand2to4_strided_spec(
            src@,
            old(dst)@,
            w as int,
            h as int,
            ss as int,
            ds as int,
        ),
{
    let ghost origd = dst@;
    let ghost ssi = ss as int;
    let ghost dsi = ds as int;
    let ghost wi = w as int;
    let ghost g = |y: int, o: int| expand2to4_byte(src@.subrange(y * ssi, y * ssi + 2 * wi), o);
    let n: usize = dst.len();
    let sn: usize = src.len();
    let mut y: usize = 0;
    while y < h
        invariant
            y <= h,
            strided_ok(src@.len() as int, wi, h as int, ssi, 2),
            strided_ok(origd.len() as int, wi, h as int, dsi, 4),
            n == origd.len(),
            sn == src@.len(),
            wi == w as int && ssi == ss as int && dsi == ds as int,
            dst@ == rows_written(origd, y as int, dsi, 4 * wi, g),
            g == (|y: int, o: int| expand2to4_byte(src@.subrange(y * ssi, y * ssi + 2 * wi), o)),
        decreases h - y,
    {
        proof {
            lemma_row_bounds(src@.len() as int, wi, h as int, ssi, 2, y as int);
            lemma_row_bounds(origd.len() as int, wi, h as int, dsi, 4, y as int);
            lemma_rows_written_len(origd, y as int, dsi, 4 * wi, g);
        }
        let srs = y * ss;
        let drs = y * ds;
        expand2to4_row(caps, src, dst, srs, drs, w);
        proof {
            assert(dst@ =~= rows_written(origd, y as int + 1, dsi, 4 * wi, g));
        }
        y = y + 1;
    }
}

/// Narrow a strided `w`x`h` 4-byte-pixel image to 3-byte pixels row by row
/// (reversed when `reverse`, alpha dropped); padding is never touched.
pub fn strip4to3_rows(
    caps: Caps,
    src: &[u8],
    dst: &mut [u8],
    w: usize,
    h: usize,
    ss: usize,
    ds: usize,
    reverse: bool,
)
    requires
        strided_ok(src@.len() as int, w as int, h as int, ss as int, 4),
        strided_ok(old(dst)@.len() as int, w as int, h as int, ds as int, 3),
    ensures
        final(dst)@ == strip4to3_strided_spec(
            src@,
            old(dst)@,
            w as int,
            h as int,
            ss as int,
            ds as int,
            reverse,
        ),
{
    let ghost origd = dst@;
    let ghost ssi = ss as int;
    let ghost dsi = ds as int;
    let ghost wi = w as int;
    let ghost g = |y: int, o: int| strip4to3_byte(
        src@.subrange(y * ssi, y * ssi + 4 * wi),
        reverse,
        o,
    );
    let n: usize = dst.len();
    let sn: usize = src.len();
    let mut y: usize = 0;
    while y < h
        invariant
            y <= h,
            strided_ok(src@.len() as int, wi, h as int, ssi, 4),
            strided_ok(origd.len() as int, wi, h as int, dsi, 3),
            n == origd.len(),
            sn == src@.len(),
            wi == w as int && ssi == ss as int && dsi == ds as int,
            dst@ == rows_written(origd, y as int, dsi, 3 * wi, g),
            g == (|y: int, o: int| strip4to3_byte(
                src@.subrange(y * ssi, y * ssi + 4 * wi),
                reverse,
                o,
            )),
        decreases h - y,
    {
        proof {
            lemma_row_bounds(src@.len() as int, wi, h as int, ssi, 4, y as int);
            lemma_row_bounds(origd.len() as int, wi, h as int, dsi, 3, y as int);
            lemma_rows_written_len(origd, y as int, dsi, 3 * wi, g);
        }
        let srs = y * ss;
        let drs = y * ds;
        strip4to3_row(caps, src, dst, srs, drs, w, reverse);
        proof {
            assert(dst@ =~= rows_written(origd, y as int + 1, dsi, 3 * wi, g));
        }
        y = y + 1;
    }
}

} // verus!
