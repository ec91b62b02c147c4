use openscreen::color::{alpha_blend, lerp_u8, parse_hex_color, Color};

#[test]
fn test_parse_hex_color_6_digit() {
    let c = parse_hex_color("#FF8800");
    assert_eq!(c, Color { r: 255, g: 136, b: 0, a: 255 });
}

#[test]
fn test_parse_hex_color_8_digit() {
    let c = parse_hex_color("#FF880080");
    assert_eq!(c, Color { r: 255, g: 136, b: 0, a: 128 });
}

#[test]
fn test_parse_hex_color_malformed() {
    let c = parse_hex_color("xyz");
    assert_eq!(c, Color { r: 0, g: 0, b: 0, a: 255 });
}

#[test]
fn test_parse_hex_color_no_hash() {
    let c = parse_hex_color("FF0000");
    assert_eq!(c, Color { r: 255, g: 0, b: 0, a: 255 });
}

#[test]
fn test_parse_hex_color_lowercase() {
    let c = parse_hex_color("#ff8800");
    assert_eq!(c, Color { r: 255, g: 136, b: 0, a: 255 });
}

#[test]
fn test_lerp_u8_boundaries() {
    assert_eq!(lerp_u8(0, 255, 0), 0);
    assert_eq!(lerp_u8(0, 255, 1000), 255);
}

#[test]
fn test_lerp_u8_midpoint() {
    let mid = lerp_u8(0, 200, 500);
    assert_eq!(mid, 100);
}

#[test]
fn test_alpha_blend_opaque_fg() {
    let bg = Color { r: 100, g: 100, b: 100, a: 255 };
    let fg = Color { r: 200, g: 50, b: 50, a: 255 };
    let result = alpha_blend(bg, fg);
    assert_eq!(result, Color { r: 200, g: 50, b: 50, a: 255 });
}

#[test]
fn test_alpha_blend_transparent_fg() {
    let bg = Color { r: 100, g: 100, b: 100, a: 255 };
    let fg = Color { r: 200, g: 50, b: 50, a: 0 };
    let result = alpha_blend(bg, fg);
    assert_eq!(result.r, 100);
    assert_eq!(result.g, 100);
    assert_eq!(result.b, 100);
    assert_eq!(result.a, 255);
}

#[test]
fn test_alpha_blend_semi_transparent() {
    let bg = Color { r: 0, g: 0, b: 0, a: 255 };
    let fg = Color { r: 255, g: 255, b: 255, a: 128 };
    let result = alpha_blend(bg, fg);
    // fg alpha ~0.502, result should be roughly half white
    assert!(result.r > 100 && result.r < 200);
    assert_eq!(result.a, 255);
}

#[test]
fn test_alpha_blend_both_transparent() {
    let bg = Color { r: 100, g: 100, b: 100, a: 0 };
    let fg = Color { r: 200, g: 50, b: 50, a: 0 };
    let result = alpha_blend(bg, fg);
    assert_eq!(result.a, 0);
}
