//! The introductory examples of the crate documentation, kept compiling
//! and behaving.

use garb::rgb_to_bgra;
use garb::rgba_to_bgra_inplace;
use garb::rgba_to_bgra_inplace_strided;

#[test]
fn readme_core_api() {
    let mut pixels = vec![255u8, 0, 128, 255, 0, 200, 100, 255];
    rgba_to_bgra_inplace(&mut pixels).unwrap();
    assert_eq!(pixels, [128, 0, 255, 255, 100, 200, 0, 255]);

    let rgb = vec![255u8, 0, 128];
    let mut bgra = vec![0u8; 4];
    rgb_to_bgra(&rgb, &mut bgra).unwrap();
    assert_eq!(bgra, [128, 0, 255, 255]);
}

#[test]
fn readme_strided() {
    let mut buf = vec![0u8; 256 * 100];
    rgba_to_bgra_inplace_strided(&mut buf, 60, 100, 256).unwrap();
}
