//! Byte-level specifications of every conversion, and the generic
//! row-region machinery that strided operations are specified with.
//!
//! Each operation is described by a byte map: the value of output byte `o`
//! as a function of the source bytes. Contiguous operations apply the map
//! to the whole buffer; strided operations apply it row by row through
//! [`rows_written`], which leaves every byte outside the active rows —
//! the padding — untouched.

use vstd::arithmetic::mul::lemma_mul_inequality;
use vstd::prelude::*;

verus! {

// ---------------------------------------------------------------------------
// Per-operation byte maps (applied to one contiguous run of pixels)
// ---------------------------------------------------------------------------

/// Byte `o` after swapping bytes 0 and 2 of every 4-byte pixel of `s`.
pub open spec fn swap4_byte(s: Seq<u8>, o: int) -> u8 {
    if o % 4 == 0 {
        s[o + 2]
    } else if o % 4 == 2 {
        s[o - 2]
    } else {
        s[o]
    }
}

/// `s` with bytes 0 and 2 of every 4-byte pixel swapped (RGBA <-> BGRA).
pub open spec fn swap4_spec(s: Seq<u8>) -> Seq<u8> {
    Seq::new(s.len(), |o: int| swap4_byte(s, o))
}

/// Byte `o` after forcing byte 3 of every 4-byte pixel of `s` to 255.
pub open spec fn fill4_byte(s: Seq<u8>, o: int) -> u8 {
    if o % 4 == 3 {
        255u8
    } else {
        s[o]
    }
}

/// `s` with the alpha byte (byte 3) of every 4-byte pixel set to 255.
pub open spec fn fill_alpha_spec(s: Seq<u8>) -> Seq<u8> {
    Seq::new(s.len(), |o: int| fill4_byte(s, o))
}

/// Byte `o` after swapping bytes 0 and 2 of every 3-byte pixel of `s`.
pub open spec fn swap3_byte(s: Seq<u8>, o: int) -> u8 {
    if o % 3 == 0 {
        s[o + 2]
    } else if o % 3 == 2 {
        s[o - 2]
    } else {
        s[o]
    }
}

/// `s` with bytes 0 and 2 of every 3-byte pixel swapped (RGB <-> BGR).
pub open spec fn swap3_spec(s: Seq<u8>) -> Seq<u8> {
    Seq::new(s.len(), |o: int| swap3_byte(s, o))
}

/// Output byte `o` of widening 3-byte pixels of `s` to 4 bytes: the three
/// channels (reversed when `reverse`) followed by alpha 255.
pub open spec fn expand3to4_byte(s: Seq<u8>, reverse: bool, o: int) -> u8 {
    let p = o / 4;
    let c = o % 4;
    if c == 3 {
        255u8
    } else if reverse {
        s[3 * p + 2 - c]
    } else {
        s[3 * p + c]
    }
}

/// The 3-byte pixels of `s` widened to 4 bytes each, alpha 255.
pub open spec fn expand3to4_spec(s: Seq<u8>, reverse: bool) -> Seq<u8> {
    Seq::new((s.len() / 3 * 4) as nat, |o: int| expand3to4_byte(s, reverse, o))
}

/// Output byte `o` of widening gray bytes of `s` to 4 bytes: the gray value
/// three times, then alpha 255.
pub open spec fn expand1to4_byte(s: Seq<u8>, o: int) -> u8 {
    if o % 4 == 3 {
        255u8
    } else {
        s[o / 4]
    }
}

/// The gray bytes of `s` widened to 4-byte pixels `[g, g, g, 255]`.
pub open spec fn expand1to4_spec(s: Seq<u8>) -> Seq<u8> {
    Seq::new((s.len() * 4) as nat, |o: int| expand1to4_byte(s, o))
}

/// Output byte `o` of widening gray+alpha pairs of `s` to 4 bytes: the gray
/// value three times, then the source alpha.
pub open spec fn expand2to4_byte(s: Seq<u8>, o: int) -> u8 {
    let p = o / 4;
    if o % 4 == 3 {
        s[2 * p + 1]
    } else {
        s[2 * p]
    }
}

/// The gray+alpha pairs of `s` widened to 4-byte pixels `[g, g, g, a]`.
pub open spec fn expand2to4_spec(s: Seq<u8>) -> Seq<u8> {
    Seq::new((s.len() / 2 * 4) as nat, |o: int| expand2to4_byte(s, o))
}

/// Output byte `o` of narrowing 4-byte pixels of `s` to 3 bytes: byte 3 is
/// dropped and the remaining channels are reversed when `reverse`.
pub open spec fn strip4to3_byte(s: Seq<u8>, reverse: bool, o: int) -> u8 {
    let p = o / 3;
    let c = o % 3;
    if reverse {
        s[4 * p + 2 - c]
    } else {
        s[4 * p + c]
    }
}

/// The 4-byte pixels of `s` narrowed to 3 bytes each, alpha dropped.
pub open spec fn strip4to3_spec(s: Seq<u8>, reverse: bool) -> Seq<u8> {
    Seq::new((s.len() / 4 * 3) as nat, |o: int| strip4to3_byte(s, reverse, o))
}

// ---------------------------------------------------------------------------
// Regions and rows
// ---------------------------------------------------------------------------

/// `dst` with bytes `start .. start + len` replaced by `f(0) .. f(len - 1)`
/// and every other byte unchanged.
pub open spec fn write_region(dst: Seq<u8>, start: int, len: int, f: spec_fn(int) -> u8) -> Seq<
    u8,
> {
    Seq::new(dst.len(), |i: int| if start <= i < start + len { f(i - start) } else { dst[i] })
}

/// Byte `i` lies in the active part of row `y`: rows start `stride` bytes
/// apart and each holds `rowlen` active bytes.
pub open spec fn in_active_row(i: int, y: int, stride: int, rowlen: int) -> bool {
    y * stride <= i < y * stride + rowlen
}

/// `dst` after writing rows `0 .. h`: row `y` occupies bytes
/// `y * stride .. y * stride + rowlen` and its byte `o` becomes `g(y, o)`;
/// all other bytes keep their previous value.
pub open spec fn rows_written(
    dst: Seq<u8>,
    h: int,
    stride: int,
    rowlen: int,
    g: spec_fn(int, int) -> u8,
) -> Seq<u8>
    decreases h,
{
    if h <= 0 {
        dst
    } else {
        write_region(
            rows_written(dst, h - 1, stride, rowlen, g),
            (h - 1) * stride,
            rowlen,
            |o: int| g(h - 1, o),
        )
    }
}

/// Writing rows never changes the buffer's length.
pub proof fn lemma_rows_written_len(
    dst: Seq<u8>,
    h: int,
    stride: int,
    rowlen: int,
    g: spec_fn(int, int) -> u8,
)
    ensures
        rows_written(dst, h, stride, rowlen, g).len() == dst.len(),
    decreases h,
{
    if h > 0 {
        lemma_rows_written_len(dst, h - 1, stride, rowlen, g);
    }
}

/// Padding preservation: a byte that lies in no active row — between the end
/// of a row's active bytes and the next row's start, or past the last row —
/// is left exactly as it was.
pub proof fn lemma_rows_written_padding(
    dst: Seq<u8>,
    h: int,
    stride: int,
    rowlen: int,
    g: spec_fn(int, int) -> u8,
    i: int,
)
    requires
        0 <= i < dst.len(),
        forall|y: int| 0 <= y < h ==> !#[trigger] in_active_row(i, y, stride, rowlen),
    ensures
        rows_written(dst, h, stride, rowlen, g)[i] == dst[i],
    decreases h,
{
    if h > 0 {
        lemma_rows_written_len(dst, h - 1, stride, rowlen, g);
        assert(!in_active_row(i, h - 1, stride, rowlen));
        lemma_rows_written_padding(dst, h - 1, stride, rowlen, g, i);
    }
}

/// The active bytes: byte `o` of row `y` of the written image is `g(y, o)`.
pub proof fn lemma_rows_written_active(
    dst: Seq<u8>,
    h: int,
    stride: int,
    rowlen: int,
    g: spec_fn(int, int) -> u8,
    y: int,
    o: int,
)
    requires
        0 <= y < h,
        0 <= o < rowlen,
        rowlen <= stride,
        (h - 1) * stride + rowlen <= dst.len(),
    ensures
        rows_written(dst, h, stride, rowlen, g)[y * stride + o] == g(y, o),
    decreases h,
{
    lemma_rows_written_len(dst, h - 1, stride, rowlen, g);
    lemma_mul_inequality(y, h - 1, stride);
    if y == h - 1 {
        assert(0 <= y * stride) by (nonlinear_arith)
            requires
                y >= 0 && stride >= 0,
        ;
    } else {
        assert(y * stride + o < (h - 1) * stride) by (nonlinear_arith)
            requires
                y + 1 <= h - 1 && o < rowlen && rowlen <= stride && 0 <= o,
        ;
        lemma_mul_inequality(h - 2, h - 1, stride);
        lemma_rows_written_active(dst, h - 1, stride, rowlen, g, y, o);
    }
}

// ---------------------------------------------------------------------------
// Region forms: one run of `count` pixels inside a larger buffer. These are
// what the row kernels promise; contiguous operations are the whole-buffer
// case and strided operations chain them through `rows_written`.
// ---------------------------------------------------------------------------

/// `count` 4-byte pixels of `s` starting at byte `start`, bytes 0 and 2
/// swapped in place.
pub open spec fn swap4_region(s: Seq<u8>, start: int, count: int) -> Seq<u8> {
    write_region(s, start, 4 * count, |o: int| swap4_byte(s.subrange(start, start + 4 * count), o))
}

/// `count` 4-byte pixels of `s` starting at byte `start`, byte 3 forced to
/// 255 in place.
pub open spec fn fill4_region(s: Seq<u8>, start: int, count: int) -> Seq<u8> {
    write_region(s, start, 4 * count, |o: int| fill4_byte(s.subrange(start, start + 4 * count), o))
}

/// `count` 3-byte pixels of `s` starting at byte `start`, bytes 0 and 2
/// swapped in place.
pub open spec fn swap3_region(s: Seq<u8>, start: int, count: int) -> Seq<u8> {
    write_region(s, start, 3 * count, |o: int| swap3_byte(s.subrange(start, start + 3 * count), o))
}

/// `dst` with `count` 4-byte pixels copied from `src` (at `sstart`) to
/// `dstart`, bytes 0 and 2 swapped.
pub open spec fn copy_swap4_region(
    src: Seq<u8>,
    sstart: int,
    dst: Seq<u8>,
    dstart: int,
    count: int,
) -> Seq<u8> {
    write_region(
        dst,
        dstart,
        4 * count,
        |o: int| swap4_byte(src.subrange(sstart, sstart + 4 * count), o),
    )
}

/// `dst` with `count` 3-byte pixels copied from `src` (at `sstart`) to
/// `dstart`, bytes 0 and 2 swapped.
pub open spec fn copy_swap3_region(
    src: Seq<u8>,
    sstart: int,
    dst: Seq<u8>,
    dstart: int,
    count: int,
) -> Seq<u8> {
    write_region(
        dst,
        dstart,
        3 * count,
        |o: int| swap3_byte(src.subrange(sstart, sstart + 3 * count), o),
    )
}

/// `dst` with `count` 3-byte pixels of `src` (at `sstart`) widened to 4
/// bytes each at `dstart`, channels reversed when `reverse`, alpha 255.
pub open spec fn expand3to4_region(
    src: Seq<u8>,
    sstart: int,
    dst: Seq<u8>,
    dstart: int,
    count: int,
    reverse: bool,
) -> Seq<u8> {
    write_region(
        dst,
        dstart,
        4 * count,
        |o: int| expand3to4_byte(src.subrange(sstart, sstart + 3 * count), reverse, o),
    )
}

/// `dst` with `count` gray bytes of `src` (at `sstart`) widened to
/// `[g, g, g, 255]` pixels at `dstart`.
pub open spec fn expand1to4_region(
    src: Seq<u8>,
    sstart: int,
    dst: Seq<u8>,
    dstart: int,
    count: int,
) -> Seq<u8> {
    write_region(
        dst,
        dstart,
        4 * count,
        |o: int| expand1to4_byte(src.subrange(sstart, sstart + count), o),
    )
}

/// `dst` with `count` gray+alpha pairs of `src` (at `sstart`) widened to
/// `[g, g, g, a]` pixels at `dstart`.
pub open spec fn expand2to4_region(
    src: Seq<u8>,
    sstart: int,
    dst: Seq<u8>,
    dstart: int,
    count: int,
) -> Seq<u8> {
    write_region(
        dst,
        dstart,
        4 * count,
        |o: int| expand2to4_byte(src.subrange(sstart, sstart + 2 * count), o),
    )
}

/// `dst` with `count` 4-byte pixels of `src` (at `sstart`) narrowed to 3
/// bytes each at `dstart`, channels reversed when `reverse`, alpha dropped.
pub open spec fn strip4to3_region(
    src: Seq<u8>,
    sstart: int,
    dst: Seq<u8>,
    dstart: int,
    count: int,
    reverse: bool,
) -> Seq<u8> {
    write_region(
        dst,
        dstart,
        3 * count,
        |o: int| strip4to3_byte(src.subrange(sstart, sstart + 4 * count), reverse, o),
    )
}

// ---------------------------------------------------------------------------
// Strided forms: the byte map applied to rows `0 .. h` of a multi-row image
// ---------------------------------------------------------------------------

/// A strided image of `w`x`h` 4-byte pixels in `s`, bytes 0 and 2 of every
/// pixel swapped; padding between rows untouched.
pub open spec fn swap4_strided_spec(s: Seq<u8>, w: int, h: int, stride: int) -> Seq<u8> {
    rows_written(
        s,
        h,
        stride,
        4 * w,
        |y: int, o: int| swap4_byte(s.subrange(y * stride, y * stride + 4 * w), o),
    )
}

/// A strided image of `w`x`h` 4-byte pixels in `s`, byte 3 of every pixel
/// forced to 255; padding between rows untouched.
pub open spec fn fill4_strided_spec(s: Seq<u8>, w: int, h: int, stride: int) -> Seq<u8> {
    rows_written(
        s,
        h,
        stride,
        4 * w,
        |y: int, o: int| fill4_byte(s.subrange(y * stride, y * stride + 4 * w), o),
    )
}

/// A strided image of `w`x`h` 3-byte pixels in `s`, bytes 0 and 2 of every
/// pixel swapped; padding between rows untouched.
pub open spec fn swap3_strided_spec(s: Seq<u8>, w: int, h: int, stride: int) -> Seq<u8> {
    rows_written(
        s,
        h,
        stride,
        3 * w,
        |y: int, o: int| swap3_byte(s.subrange(y * stride, y * stride + 3 * w), o),
    )
}

/// `dst` with each row of a `w`x`h` 4-byte-pixel image copied from `src`
/// (rows `ss` apart) with bytes 0 and 2 swapped, into rows `ds` apart.
pub open spec fn copy_swap4_strided_spec(
    src: Seq<u8>,
    dst: Seq<u8>,
    w: int,
    h: int,
    ss: int,
    ds: int,
) -> Seq<u8> {
    rows_written(
        dst,
        h,
        ds,
        4 * w,
        |y: int, o: int| swap4_byte(src.subrange(y * ss, y * ss + 4 * w), o),
    )
}

/// `dst` with each row of a `w`x`h` 3-byte-pixel image copied from `src`
/// (rows `ss` apart) with bytes 0 and 2 swapped, into rows `ds` apart.
pub open spec fn copy_swap3_strided_spec(
    src: Seq<u8>,
    dst: Seq<u8>,
    w: int,
    h: int,
    ss: int,
    ds: int,
) -> Seq<u8> {
    rows_written(
        dst,
        h,
        ds,
        3 * w,
        |y: int, o: int| swap3_byte(src.subrange(y * ss, y * ss + 3 * w), o),
    )
}

/// `dst` with each row of a `w`x`h` 3-byte-pixel image of `src` widened to
/// 4-byte pixels (reversed when `reverse`, alpha 255), rows `ss`/`ds` apart.
pub open spec fn expand3to4_strided_spec(
    src: Seq<u8>,
    dst: Seq<u8>,
    w: int,
    h: int,
    ss: int,
    ds: int,
    reverse: bool,
) -> Seq<u8> {
    rows_written(
        dst,
        h,
        ds,
        4 * w,
        |y: int, o: int| expand3to4_byte(src.subrange(y * ss, y * ss + 3 * w), reverse, o),
    )
}

/// `dst` with each row of a `w`x`h` gray image of `src` widened to
/// `[g, g, g, 255]` pixels, rows `ss`/`ds` apart.
pub open spec fn expand1to4_strided_spec(
    src: Seq<u8>,
    dst: Seq<u8>,
    w: int,
    h: int,
    ss: int,
    ds: int,
) -> Seq<u8> {
    rows_written(
        dst,
        h,
        ds,
        4 * w,
        |y: int, o: int| expand1to4_byte(src.subrange(y * ss, y * ss + w), o),
    )
}

/// `dst` with each row of a `w`x`h` gray+alpha image of `src` widened to
/// `[g, g, g, a]` pixels, rows `ss`/`ds` apart.
pub open spec fn expand2to4_strided_spec(
    src: Seq<u8>,
    dst: Seq<u8>,
    w: int,
    h: int,
    ss: int,
    ds: int,
) -> Seq<u8> {
    rows_written(
        dst,
        h,
        ds,
        4 * w,
        |y: int, o: int| expand2to4_byte(src.subrange(y * ss, y * ss + 2 * w), o),
    )
}

/// `dst` with each row of a `w`x`h` 4-byte-pixel image of `src` narrowed to
/// 3-byte pixels (reversed when `reverse`, alpha dropped), rows `ss`/`ds`
/// apart.
pub open spec fn strip4to3_strided_spec(
    src: Seq<u8>,
    dst: Seq<u8>,
    w: int,
    h: int,
    ss: int,
    ds: int,
    reverse: bool,
) -> Seq<u8> {
    rows_written(
        dst,
        h,
        ds,
        3 * w,
        |y: int, o: int| strip4to3_byte(src.subrange(y * ss, y * ss + 4 * w), reverse, o),
    )
}

/// Bytes at or past `h * stride` — at or past the start of the first
/// unwritten row — are untouched by writing rows `0 .. h`.
pub proof fn lemma_rows_written_tail(
    dst: Seq<u8>,
    h: int,
    stride: int,
    rowlen: int,
    g: spec_fn(int, int) -> u8,
    i: int,
)
    requires
        0 <= i < dst.len(),
        0 <= rowlen <= stride,
        0 <= h,
        h * stride <= i,
    ensures
        rows_written(dst, h, stride, rowlen, g)[i] == dst[i],
{
    assert forall|y: int| 0 <= y < h implies !#[trigger] in_active_row(i, y, stride, rowlen) by {
        lemma_mul_inequality(y + 1, h, stride);
        assert(y * stride + rowlen <= (y + 1) * stride) by (nonlinear_arith)
            requires
                rowlen <= stride,
        ;
    }
    lemma_rows_written_padding(dst, h, stride, rowlen, g, i);
}

/// Padding preservation, spelled out for the strided 4-byte channel swap:
/// a byte of the buffer that lies in no active row — in the gap between a
/// row's `4 * w` active bytes and the next row's start, or past the last
/// row — is exactly what it was. The same holds of every strided
/// operation, by [`lemma_rows_written_padding`] on its `rows_written`
/// form.
pub proof fn lemma_swap4_strided_padding(s: Seq<u8>, w: int, h: int, stride: int, i: int)
    requires
        0 <= i < s.len(),
        forall|y: int| 0 <= y < h ==> !#[trigger] in_active_row(i, y, stride, 4 * w),
    ensures
        swap4_strided_spec(s, w, h, stride)[i] == s[i],
{
    lemma_rows_written_padding(
        s,
        h,
        stride,
        4 * w,
        |y: int, o: int| swap4_byte(s.subrange(y * stride, y * stride + 4 * w), o),
        i,
    );
}

/// The active bytes of the strided 4-byte channel swap: byte `o` of row
/// `y` is byte `o` of the swap of that row's active bytes.
pub proof fn lemma_swap4_strided_active(s: Seq<u8>, w: int, h: int, stride: int, y: int, o: int)
    requires
        0 <= y < h,
        0 <= o < 4 * w,
        4 * w <= stride,
        (h - 1) * stride + 4 * w <= s.len(),
    ensures
        swap4_strided_spec(s, w, h, stride)[y * stride + o] == swap4_byte(
            s.subrange(y * stride, y * stride + 4 * w),
            o,
        ),
{
    lemma_rows_written_active(
        s,
        h,
        stride,
        4 * w,
        |y: int, o: int| swap4_byte(s.subrange(y * stride, y * stride + 4 * w), o),
        y,
        o,
    );
}

/// Padding preservation for the copying operations, spelled out for the
/// strided 3-to-4 widening: a destination byte in no active destination
/// row is exactly what it was.
pub proof fn lemma_expand3to4_strided_padding(
    src: Seq<u8>,
    dst: Seq<u8>,
    w: int,
    h: int,
    ss: int,
    ds: int,
    reverse: bool,
    i: int,
)
    requires
        0 <= i < dst.len(),
        forall|y: int| 0 <= y < h ==> !#[trigger] in_active_row(i, y, ds, 4 * w),
    ensures
        expand3to4_strided_spec(src, dst, w, h, ss, ds, reverse)[i] == dst[i],
{
    lemma_rows_written_padding(
        dst,
        h,
        ds,
        4 * w,
        |y: int, o: int| expand3to4_byte(src.subrange(y * ss, y * ss + 3 * w), reverse, o),
        i,
    );
}

/// The active bytes of the strided 3-to-4 widening: byte `o` of
/// destination row `y` is byte `o` of the widening of source row `y`.
pub proof fn lemma_expand3to4_strided_active(
    src: Seq<u8>,
    dst: Seq<u8>,
    w: int,
    h: int,
    ss: int,
    ds: int,
    reverse: bool,
    y: int,
    o: int,
)
    requires
        0 <= y < h,
        0 <= o < 4 * w,
        4 * w <= ds,
        (h - 1) * ds + 4 * w <= dst.len(),
    ensures
        expand3to4_strided_spec(src, dst, w, h, ss, ds, reverse)[y * ds + o] == expand3to4_byte(
            src.subrange(y * ss, y * ss + 3 * w),
            reverse,
            o,
        ),
{
    lemma_rows_written_active(
        dst,
        h,
        ds,
        4 * w,
        |y: int, o: int| expand3to4_byte(src.subrange(y * ss, y * ss + 3 * w), reverse, o),
        y,
        o,
    );
}

/// Every byte of row `y` of a valid strided image lies inside the buffer,
/// and the row start does not overflow.
pub proof fn lemma_row_bounds(len: int, w: int, h: int, stride: int, bpp: int, y: int)
    requires
        crate::check::strided_ok(len, w, h, stride, bpp),
        bpp > 0,
        0 <= y < h,
    ensures
        0 <= y * stride,
        y * stride + w * bpp <= len,
        (y + 1) * stride <= y * stride + stride,
{
    lemma_mul_inequality(y, h - 1, stride);
    assert(0 <= y * stride && (y + 1) * stride == y * stride + stride) by (nonlinear_arith)
        requires
            y >= 0 && stride >= 0,
    ;
}

// ---------------------------------------------------------------------------
// Whole-buffer case: a contiguous buffer is a single run of pixels
// ---------------------------------------------------------------------------

/// The pixels of a buffer cover at most the buffer, and exactly the buffer
/// when its length is a whole number of pixels.
pub proof fn lemma_div_mul_le(x: int, k: int)
    requires
        x >= 0,
        k > 0,
    ensures
        k * (x / k) <= x,
        x % k == 0 ==> k * (x / k) == x,
{
    assert(k * (x / k) <= x && (x % k == 0 ==> k * (x / k) == x)) by (nonlinear_arith)
        requires
            x >= 0 && k > 0,
    ;
}

/// On a whole buffer of 4-byte pixels the region form is the channel swap
/// of the entire buffer.
pub proof fn lemma_swap4_region_whole(s: Seq<u8>)
    requires
        s.len() % 4 == 0,
    ensures
        swap4_region(s, 0, s.len() as int / 4) == swap4_spec(s),
{
    assert(4 * (s.len() as int / 4) == s.len());
    assert(s.subrange(0, s.len() as int) =~= s);
    assert(swap4_region(s, 0, s.len() as int / 4) =~= swap4_spec(s));
}

/// On a whole buffer of 4-byte pixels the region form is the alpha fill of
/// the entire buffer.
pub proof fn lemma_fill4_region_whole(s: Seq<u8>)
    requires
        s.len() % 4 == 0,
    ensures
        fill4_region(s, 0, s.len() as int / 4) == fill_alpha_spec(s),
{
    assert(4 * (s.len() as int / 4) == s.len());
    assert(s.subrange(0, s.len() as int) =~= s);
    assert(fill4_region(s, 0, s.len() as int / 4) =~= fill_alpha_spec(s));
}

/// On a whole buffer of 3-byte pixels the region form is the channel swap
/// of the entire buffer.
pub proof fn lemma_swap3_region_whole(s: Seq<u8>)
    requires
        s.len() % 3 == 0,
    ensures
        swap3_region(s, 0, s.len() as int / 3) == swap3_spec(s),
{
    assert(3 * (s.len() as int / 3) == s.len());
    assert(s.subrange(0, s.len() as int) =~= s);
    assert(swap3_region(s, 0, s.len() as int / 3) =~= swap3_spec(s));
}

// ---------------------------------------------------------------------------
// One pixel at a time: what each byte map yields at the offsets of pixel `p`
// ---------------------------------------------------------------------------

/// The four output bytes of pixel `p` under the 4-byte channel swap.
pub proof fn lemma_swap4_at(s: Seq<u8>, p: int)
    requires
        0 <= p,
        4 * p + 4 <= s.len(),
    ensures
        swap4_byte(s, 4 * p) == s[4 * p + 2],
        swap4_byte(s, 4 * p + 1) == s[4 * p + 1],
        swap4_byte(s, 4 * p + 2) == s[4 * p],
        swap4_byte(s, 4 * p + 3) == s[4 * p + 3],
{
    assert((4 * p) % 4 == 0 && (4 * p + 1) % 4 == 1 && (4 * p + 2) % 4 == 2 && (4 * p + 3) % 4
        == 3) by (nonlinear_arith)
        requires
            p >= 0,
    ;
}

/// The four output bytes of pixel `p` under the alpha fill.
pub proof fn lemma_fill4_at(s: Seq<u8>, p: int)
    requires
        0 <= p,
        4 * p + 4 <= s.len(),
    ensures
        fill4_byte(s, 4 * p) == s[4 * p],
        fill4_byte(s, 4 * p + 1) == s[4 * p + 1],
        fill4_byte(s, 4 * p + 2) == s[4 * p + 2],
        fill4_byte(s, 4 * p + 3) == 255u8,
{
    assert((4 * p) % 4 == 0 && (4 * p + 1) % 4 == 1 && (4 * p + 2) % 4 == 2 && (4 * p + 3) % 4
        == 3) by (nonlinear_arith)
        requires
            p >= 0,
    ;
}

/// The three output bytes of pixel `p` under the 3-byte channel swap.
pub proof fn lemma_swap3_at(s: Seq<u8>, p: int)
    requires
        0 <= p,
        3 * p + 3 <= s.len(),
    ensures
        swap3_byte(s, 3 * p) == s[3 * p + 2],
        swap3_byte(s, 3 * p + 1) == s[3 * p + 1],
        swap3_byte(s, 3 * p + 2) == s[3 * p],
{
    assert((3 * p) % 3 == 0 && (3 * p + 1) % 3 == 1 && (3 * p + 2) % 3 == 2) by (nonlinear_arith)
        requires
            p >= 0,
    ;
}

/// The four output bytes of pixel `p` under the 3-to-4 widening.
pub proof fn lemma_expand3to4_at(s: Seq<u8>, reverse: bool, p: int)
    requires
        0 <= p,
        3 * p + 3 <= s.len(),
    ensures
        expand3to4_byte(s, reverse, 4 * p) == if reverse {
            s[3 * p + 2]
        } else {
            s[3 * p]
        },
        expand3to4_byte(s, reverse, 4 * p + 1) == s[3 * p + 1],
        expand3to4_byte(s, reverse, 4 * p + 2) == if reverse {
            s[3 * p]
        } else {
            s[3 * p + 2]
        },
        expand3to4_byte(s, reverse, 4 * p + 3) == 255u8,
{
    lemma_div4_at(p);
}

/// The four output bytes of pixel `p` under the gray widening.
pub proof fn lemma_expand1to4_at(s: Seq<u8>, p: int)
    requires
        0 <= p,
        p < s.len(),
    ensures
        expand1to4_byte(s, 4 * p) == s[p],
        expand1to4_byte(s, 4 * p + 1) == s[p],
        expand1to4_byte(s, 4 * p + 2) == s[p],
        expand1to4_byte(s, 4 * p + 3) == 255u8,
{
    lemma_div4_at(p);
}

/// The four output bytes of pixel `p` under the gray+alpha widening.
pub proof fn lemma_expand2to4_at(s: Seq<u8>, p: int)
    requires
        0 <= p,
        2 * p + 2 <= s.len(),
    ensures
        expand2to4_byte(s, 4 * p) == s[2 * p],
        expand2to4_byte(s, 4 * p + 1) == s[2 * p],
        expand2to4_byte(s, 4 * p + 2) == s[2 * p],
        expand2to4_byte(s, 4 * p + 3) == s[2 * p + 1],
{
    lemma_div4_at(p);
}

/// The three output bytes of pixel `p` under the 4-to-3 narrowing.
pub proof fn lemma_strip4to3_at(s: Seq<u8>, reverse: bool, p: int)
    requires
        0 <= p,
        4 * p + 4 <= s.len(),
    ensures
        strip4to3_byte(s, reverse, 3 * p) == if reverse {
            s[4 * p + 2]
        } else {
            s[4 * p]
        },
        strip4to3_byte(s, reverse, 3 * p + 1) == s[4 * p + 1],
        strip4to3_byte(s, reverse, 3 * p + 2) == if reverse {
            s[4 * p]
        } else {
            s[4 * p + 2]
        },
{
    assert((3 * p) / 3 == p && (3 * p) % 3 == 0 && (3 * p + 1) / 3 == p && (3 * p + 1) % 3 == 1 && (
    3 * p + 2) / 3 == p && (3 * p + 2) % 3 == 2) by (nonlinear_arith)
        requires
            p >= 0,
    ;
}

/// Quotients and residues of the four byte offsets of pixel `p` in a
/// 4-byte-per-pixel layout.
proof fn lemma_div4_at(p: int)
    requires
        0 <= p,
    ensures
        (4 * p) / 4 == p && (4 * p) % 4 == 0,
        (4 * p + 1) / 4 == p && (4 * p + 1) % 4 == 1,
        (4 * p + 2) / 4 == p && (4 * p + 2) % 4 == 2,
        (4 * p + 3) / 4 == p && (4 * p + 3) % 4 == 3,
{
    assert((4 * p) / 4 == p && (4 * p) % 4 == 0 && (4 * p + 1) / 4 == p && (4 * p + 1) % 4 == 1 && (
    4 * p + 2) / 4 == p && (4 * p + 2) % 4 == 2 && (4 * p + 3) / 4 == p && (4 * p + 3) % 4
        == 3) by (nonlinear_arith)
        requires
            p >= 0,
    ;
}

/// The 4-byte channel swap looks the same through a pixel-aligned window:
/// byte `base + o` of the swap of `s` is byte `o` of the swap of the
/// window of `s` at `base`.
pub proof fn lemma_swap4_window(s: Seq<u8>, base: int, m: int, o: int)
    requires
        0 <= base,
        base % 4 == 0,
        m % 4 == 0,
        0 <= o < m,
        base + m <= s.len(),
    ensures
        swap4_byte(s, base + o) == swap4_byte(s.subrange(base, base + m), o),
{
    assert((base + o) % 4 == o % 4 && (o % 4 == 0 ==> o + 2 < m) && (o % 4 == 2 ==> o - 2
        >= 0)) by (nonlinear_arith)
        requires
            base % 4 == 0 && m % 4 == 0 && 0 <= o < m && 0 <= base,
    ;
}

/// The alpha fill looks the same through a pixel-aligned window.
pub proof fn lemma_fill4_window(s: Seq<u8>, base: int, m: int, o: int)
    requires
        0 <= base,
        base % 4 == 0,
        m % 4 == 0,
        0 <= o < m,
        base + m <= s.len(),
    ensures
        fill4_byte(s, base + o) == fill4_byte(s.subrange(base, base + m), o),
{
    assert((base + o) % 4 == o % 4) by (nonlinear_arith)
        requires
            base % 4 == 0 && 0 <= o && 0 <= base,
    ;
}

/// The gray widening looks the same through a window of two source
/// pixels: output byte `4 * p + o` reads source pixel `p + o / 4`.
pub proof fn lemma_expand1to4_window(s: Seq<u8>, p: int, o: int)
    requires
        0 <= p,
        0 <= o < 8,
        p + 2 <= s.len(),
    ensures
        expand1to4_byte(s, 4 * p + o) == expand1to4_byte(s.subrange(p, p + 2), o),
{
    assert((4 * p + o) % 4 == o % 4 && (4 * p + o) / 4 == p + o / 4 && 0 <= o / 4 < 2 && o % 4 == o
        - 4 * (o / 4)) by (nonlinear_arith)
        requires
            0 <= p && 0 <= o < 8,
    ;
}

/// The gray+alpha widening looks the same through a window of two source
/// pixels.
pub proof fn lemma_expand2to4_window(s: Seq<u8>, p: int, o: int)
    requires
        0 <= p,
        0 <= o < 8,
        2 * p + 4 <= s.len(),
    ensures
        expand2to4_byte(s, 4 * p + o) == expand2to4_byte(s.subrange(2 * p, 2 * p + 4), o),
{
    assert((4 * p + o) % 4 == o % 4 && (4 * p + o) / 4 == p + o / 4 && 0 <= o / 4 < 2 && 2 * ((4 * p
        + o) / 4) == 2 * p + 2 * (o / 4) && 2 * (o / 4) + 1 < 4) by (nonlinear_arith)
        requires
            0 <= p && 0 <= o < 8,
    ;
}

/// The 3-to-4 widening looks the same through a window of two source
/// pixels.
pub proof fn lemma_expand3to4_window(s: Seq<u8>, reverse: bool, p: int, o: int)
    requires
        0 <= p,
        0 <= o < 8,
        3 * p + 6 <= s.len(),
    ensures
        expand3to4_byte(s, reverse, 4 * p + o) == expand3to4_byte(
            s.subrange(3 * p, 3 * p + 6),
            reverse,
            o,
        ),
{
    assert((4 * p + o) % 4 == o % 4 && (4 * p + o) / 4 == p + o / 4 && 0 <= o / 4 < 2 && 3 * ((4 * p
        + o) / 4) == 3 * p + 3 * (o / 4) && 3 * (o / 4) + 2 < 6) by (nonlinear_arith)
        requires
            0 <= p && 0 <= o < 8,
    ;
}

// ---------------------------------------------------------------------------
// Involution: swapping the same pair of channels twice restores the input
// ---------------------------------------------------------------------------

/// Swapping bytes 0 and 2 of every 4-byte pixel twice gives back the
/// original buffer.
pub proof fn lemma_swap4_involution(s: Seq<u8>)
    requires
        s.len() % 4 == 0,
    ensures
        swap4_spec(swap4_spec(s)) == s,
{
    let t = swap4_spec(s);
    let u = swap4_spec(t);
    assert forall|o: int| 0 <= o < s.len() implies u[o] == s[o] by {
        lemma_pixel_offsets(o, s.len() as int, 4);
    }
    assert(u =~= s);
}

/// Swapping bytes 0 and 2 of every 3-byte pixel twice gives back the
/// original buffer.
pub proof fn lemma_swap3_involution(s: Seq<u8>)
    requires
        s.len() % 3 == 0,
    ensures
        swap3_spec(swap3_spec(s)) == s,
{
    let t = swap3_spec(s);
    let u = swap3_spec(t);
    assert forall|o: int| 0 <= o < s.len() implies u[o] == s[o] by {
        lemma_pixel_offsets(o, s.len() as int, 3);
    }
    assert(u =~= s);
}

/// Narrowing undoes widening: expanding 3-byte pixels to 4 bytes and then
/// dropping the added alpha — with the same channel order both ways —
/// gives back the original buffer, whichever order was chosen.
pub proof fn lemma_strip_undoes_expand(s: Seq<u8>, reverse: bool)
    requires
        s.len() % 3 == 0,
    ensures
        strip4to3_spec(expand3to4_spec(s, reverse), reverse) == s,
{
    let e = expand3to4_spec(s, reverse);
    let t = strip4to3_spec(e, reverse);
    assert((s.len() as int / 3 * 4) / 4 * 3 == s.len()) by (nonlinear_arith)
        requires
            s.len() % 3 == 0 && s.len() >= 0,
    ;
    assert forall|o: int| 0 <= o < s.len() implies t[o] == s[o] by {
        let p = o / 3;
        let c = o % 3;
        assert(o == 3 * p + c && 0 <= c < 3 && 3 * p + 3 <= s.len() && 4 * p + 4 <= s.len() as int
            / 3 * 4) by (nonlinear_arith)
            requires
                0 <= o < s.len() && s.len() % 3 == 0 && p == o / 3 && c == o % 3,
        ;
        lemma_strip4to3_at(e, reverse, p);
        lemma_expand3to4_at(s, reverse, p);
    }
    assert(t =~= s);
}

/// Offset facts inside one pixel: for a buffer of whole `bpp`-byte pixels,
/// the first and third byte of the pixel holding offset `o` are in bounds,
/// and their offsets have the residues the byte maps branch on.
proof fn lemma_pixel_offsets(o: int, len: int, bpp: int)
    requires
        0 <= o < len,
        len % bpp == 0,
        bpp == 3 || bpp == 4,
    ensures
        o % bpp == 0 ==> ((o + 2) % bpp == 2 && o + 2 < len),
        o % bpp == 2 ==> (o - 2 >= 0 && (o - 2) % bpp == 0),
{
    assert((o % bpp == 0 ==> (o + 2) % bpp == 2 && o + 2 < len) && (o % bpp == 2 ==> o - 2 >= 0 && (
    o - 2) % bpp == 0)) by (nonlinear_arith)
        requires
            0 <= o < len && len % bpp == 0 && (bpp == 3 || bpp == 4),
    ;
}

} // verus!
