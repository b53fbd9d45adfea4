//! Fixed-value scenarios for each operation, the involution of the
//! symmetric swaps, padding preservation in strided images, and one
//! probe per error kind.

use garb::SizeError;
use garb::bgr_to_rgb_inplace;
use garb::bgra_to_rgb;
use garb::bgra_to_rgba_inplace;
use garb::fill_alpha_rgba;
use garb::gray_alpha_to_rgba;
use garb::gray_to_rgba;
use garb::rgb_to_bgr;
use garb::rgb_to_bgr_inplace;
use garb::rgb_to_bgra;
use garb::rgb_to_rgba;
use garb::rgba_to_bgra;
use garb::rgba_to_bgra_inplace;
use garb::rgba_to_bgra_inplace_strided;
use garb::rgba_to_rgb;

#[test]
fn scenario_swap4_inplace() {
    let mut buf = [10u8, 20, 30, 255, 40, 50, 60, 128];
    rgba_to_bgra_inplace(&mut buf).unwrap();
    assert_eq!(buf, [30, 20, 10, 255, 60, 50, 40, 128]);
}

#[test]
fn scenario_expand3to4_reverse() {
    let src = [255u8, 128, 0];
    let mut dst = [0u8; 4];
    rgb_to_bgra(&src, &mut dst).unwrap();
    assert_eq!(dst, [0, 128, 255, 255]);
}

#[test]
fn scenario_expand3to4_keep_order() {
    let src = [255u8, 128, 0];
    let mut dst = [0u8; 4];
    rgb_to_rgba(&src, &mut dst).unwrap();
    assert_eq!(dst, [255, 128, 0, 255]);
}

#[test]
fn scenario_expand1to4() {
    let src = [100u8, 200];
    let mut dst = [0u8; 8];
    gray_to_rgba(&src, &mut dst).unwrap();
    assert_eq!(dst, [100, 100, 100, 255, 200, 200, 200, 255]);
}

#[test]
fn scenario_expand2to4() {
    let src = [100u8, 50, 200, 7];
    let mut dst = [0u8; 8];
    gray_alpha_to_rgba(&src, &mut dst).unwrap();
    assert_eq!(dst, [100, 100, 100, 50, 200, 200, 200, 7]);
}

#[test]
fn scenario_strip4to3() {
    let src = [10u8, 20, 30, 255, 40, 50, 60, 128];
    let mut dst = [0u8; 6];
    rgba_to_rgb(&src, &mut dst).unwrap();
    assert_eq!(dst, [10, 20, 30, 40, 50, 60]);
}

#[test]
fn scenario_fill_alpha() {
    let mut buf = [10u8, 20, 30, 40, 50, 60, 70, 0];
    fill_alpha_rgba(&mut buf).unwrap();
    assert_eq!(buf, [10, 20, 30, 255, 50, 60, 70, 255]);
}

#[test]
fn scenario_swap3_copy() {
    let src = [10u8, 20, 30, 40, 50, 60];
    let mut dst = [0u8; 6];
    rgb_to_bgr(&src, &mut dst).unwrap();
    assert_eq!(dst, [30, 20, 10, 60, 50, 40]);
}

#[test]
fn scenario_strided_swap4_padding() {
    // two rows of two active pixels; each row has a third, padding pixel
    let mut buf: Vec<u8> = (0..24u8).collect();
    rgba_to_bgra_inplace_strided(&mut buf, 2, 2, 12).unwrap();
    assert_eq!(
        buf,
        [
            2, 1, 0, 3, 6, 5, 4, 7, 8, 9, 10, 11, 14, 13, 12, 15, 18, 17, 16, 19, 20, 21, 22, 23,
        ]
    );
}

#[test]
fn involution_swap4() {
    let orig: Vec<u8> = (0..64u8).collect();
    let mut buf = orig.clone();
    rgba_to_bgra_inplace(&mut buf).unwrap();
    assert_ne!(buf, orig);
    bgra_to_rgba_inplace(&mut buf).unwrap();
    assert_eq!(buf, orig);
}

#[test]
fn involution_swap3() {
    let orig: Vec<u8> = (0..63u8).collect();
    let mut buf = orig.clone();
    rgb_to_bgr_inplace(&mut buf).unwrap();
    assert_ne!(buf, orig);
    bgr_to_rgb_inplace(&mut buf).unwrap();
    assert_eq!(buf, orig);
}

#[test]
fn round_trip_expand_then_strip() {
    let src: Vec<u8> = (0..30u8).collect();
    // keep order both ways: RGB -> RGBA -> RGB
    let mut wide = vec![0u8; 40];
    rgb_to_rgba(&src, &mut wide).unwrap();
    let mut back = vec![0u8; 30];
    rgba_to_rgb(&wide, &mut back).unwrap();
    assert_eq!(back, src);
    // reverse both ways: RGB -> BGRA -> RGB
    let mut wide2 = vec![0u8; 40];
    rgb_to_bgra(&src, &mut wide2).unwrap();
    let mut back2 = vec![0u8; 30];
    bgra_to_rgb(&wide2, &mut back2).unwrap();
    assert_eq!(back2, src);
}

#[test]
fn error_kinds_each_have_an_input() {
    assert_eq!(rgba_to_bgra_inplace(&mut [0; 7]), Err(SizeError::NotPixelAligned));
    assert_eq!(rgba_to_bgra(&[0; 8], &mut [0; 7]), Err(SizeError::PixelCountMismatch));
    assert_eq!(
        rgba_to_bgra_inplace_strided(&mut [0; 16], 3, 1, 8),
        Err(SizeError::InvalidStride)
    );
}

#[test]
fn error_leaves_buffers_untouched() {
    let mut buf = [9u8, 8, 7, 6, 5];
    assert_eq!(rgba_to_bgra_inplace(&mut buf), Err(SizeError::NotPixelAligned));
    assert_eq!(buf, [9, 8, 7, 6, 5]);

    let mut dst = [1u8, 2, 3];
    assert_eq!(rgba_to_rgb(&[0; 8], &mut dst), Err(SizeError::PixelCountMismatch));
    assert_eq!(dst, [1, 2, 3]);

    let mut sbuf = [4u8; 10];
    assert_eq!(
        rgba_to_bgra_inplace_strided(&mut sbuf, 2, 2, 8),
        Err(SizeError::InvalidStride)
    );
    assert_eq!(sbuf, [4u8; 10]);
}
