//! Colour channels: fixed-point values in [0, 1] and their 8-bit conversion.

use raycast::colour::Colour;
use raycast::pixel::Pixel;

#[test]
fn colour_test_from_f32() {
    let actual = Colour { r: 0, g: 32768, b: 65536 };
    assert_eq!(actual.r_u8(), 0);
    assert_eq!(actual.g_u8(), 127);
    assert_eq!(actual.b_u8(), 255);
}

#[test]
fn pixel_test_from_f32() {
    let actual = Pixel { r: 0, g: 32768, b: 65536 };
    assert_eq!(actual.r_u8(), 0);
    assert_eq!(actual.g_u8(), 127);
    assert_eq!(actual.b_u8(), 255);
}

#[test]
fn colour_slice_u8_is_opaque_rgba() {
    let c = Colour { r: 0, g: 32768, b: 65536 };
    assert_eq!(c.slice_u8(), [0, 127, 255, 255]);
}

#[test]
fn colour_mul_scales_channels() {
    // 0.5 * (1.0, 0.5, 0.25) = (0.5, 0.25, 0.125), all exact.
    let c = Colour { r: 65536, g: 32768, b: 16384 };
    let scaled = c.mul(32768);
    assert_eq!(scaled, Colour { r: 32768, g: 16384, b: 8192 });
}

#[test]
fn colour_add_sums_channels() {
    let a = Colour { r: 100, g: 200, b: 300 };
    let b = Colour { r: 11, g: 22, b: 33 };
    assert_eq!(a.add(b), Colour { r: 111, g: 222, b: 333 });
}

#[test]
fn pixel_mul_and_add() {
    let p = Pixel { r: 65536, g: 32768, b: 16384 };
    let scaled = p.mul(32768);
    assert_eq!(scaled, Pixel { r: 32768, g: 16384, b: 8192 });
    let summed = scaled.add(Pixel { r: 1, g: 2, b: 3 });
    assert_eq!(summed, Pixel { r: 32769, g: 16386, b: 8195 });
}
