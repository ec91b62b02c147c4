use openscreen::background::{
    calculate_canvas_size, composite_frame, is_in_rounded_rect, render_background,
};
use openscreen::color::Color;
use openscreen::effects::{Background, FrameStyle, Shadow};
use openscreen::raster::Raster;

#[test]
fn test_is_in_rounded_rect_center() {
    assert!(is_in_rounded_rect(50, 50, 100, 100, 10));
}

#[test]
fn test_is_in_rounded_rect_corner_outside() {
    // (0, 0) in a 100x100 rect with radius 20 - at the very corner
    assert!(!is_in_rounded_rect(0, 0, 100, 100, 20));
}

#[test]
fn test_is_in_rounded_rect_radius_zero() {
    // All pixels inside when radius is 0
    assert!(is_in_rounded_rect(0, 0, 100, 100, 0));
    assert!(is_in_rounded_rect(99, 99, 100, 100, 0));
}

#[test]
fn test_calculate_canvas_size() {
    let style = FrameStyle { padding: 64, ..FrameStyle::default() };
    let (w, h) = calculate_canvas_size(1920, 1080, &style);
    assert_eq!(w, 1920 + 128);
    assert_eq!(h, 1080 + 128);
}

#[test]
fn test_render_background_solid() {
    let style = FrameStyle {
        background: Background::Solid { color: "#FF8800".to_string() },
        ..FrameStyle::default()
    };
    let canvas = render_background(2, 2, &style);
    assert_eq!(canvas.width, 2);
    assert_eq!(canvas.height, 2);
    for p in &canvas.pixels {
        assert_eq!(*p, Color { r: 255, g: 136, b: 0, a: 255 });
    }
}

#[test]
fn test_render_background_image_falls_back_to_dark_fill() {
    let style = FrameStyle {
        background: Background::Image { path: "/tmp/bg.png".to_string() },
        ..FrameStyle::default()
    };
    let canvas = render_background(2, 1, &style);
    for p in &canvas.pixels {
        assert_eq!(*p, Color { r: 0x1a, g: 0x1a, b: 0x2e, a: 255 });
    }
}

#[test]
fn test_render_background_gradient_horizontal() {
    // Two stops along the X axis on a 2x1 canvas: the left pixel takes
    // the first stop, the right pixel sits halfway between the stops.
    let style = FrameStyle {
        background: Background::Gradient {
            colors: vec!["#000000".to_string(), "#FF0000".to_string()],
            dir_x: 1000,
            dir_y: 0,
        },
        ..FrameStyle::default()
    };
    let canvas = render_background(2, 1, &style);
    assert_eq!(canvas.get_pixel(0, 0), Color { r: 0, g: 0, b: 0, a: 255 });
    assert_eq!(canvas.get_pixel(1, 0), Color { r: 127, g: 0, b: 0, a: 255 });
}

#[test]
fn test_render_background_gradient_single_stop() {
    let style = FrameStyle {
        background: Background::Gradient {
            colors: vec!["#00FF00".to_string()],
            dir_x: 1000,
            dir_y: 0,
        },
        ..FrameStyle::default()
    };
    let canvas = render_background(2, 2, &style);
    for p in &canvas.pixels {
        assert_eq!(*p, Color { r: 0, g: 255, b: 0, a: 255 });
    }
}

#[test]
fn test_composite_frame_centers_frame() {
    // A 2x2 white frame on a 4x4 solid background with no shadow and no
    // rounding: the centre takes the frame, the border keeps the fill.
    let style = FrameStyle {
        background: Background::Solid { color: "#0000FF".to_string() },
        padding: 1,
        corner_radius: 0,
        shadow: Shadow { offset_x: 0, offset_y: 0, blur: 0, color: "#000000".to_string(), opacity: 300 },
        ..FrameStyle::default()
    };
    let bg = render_background(4, 4, &style);
    let mut frame = Raster::new(2, 2);
    frame.fill(Color { r: 255, g: 255, b: 255, a: 255 });
    let out = composite_frame(&bg, &frame, &style);
    assert_eq!(out.width, 4);
    assert_eq!(out.height, 4);
    let blue = Color { r: 0, g: 0, b: 255, a: 255 };
    let white = Color { r: 255, g: 255, b: 255, a: 255 };
    assert_eq!(out.get_pixel(0, 0), blue);
    assert_eq!(out.get_pixel(3, 3), blue);
    assert_eq!(out.get_pixel(1, 1), white);
    assert_eq!(out.get_pixel(2, 2), white);
}

#[test]
fn test_composite_frame_shadow_darkens_border() {
    // A fully opaque black shadow with a small blur tints the canvas
    // pixels next to the frame rectangle.
    let style = FrameStyle {
        background: Background::Solid { color: "#FFFFFF".to_string() },
        padding: 2,
        corner_radius: 0,
        shadow: Shadow { offset_x: 0, offset_y: 0, blur: 2, color: "#000000".to_string(), opacity: 1000 },
        ..FrameStyle::default()
    };
    let bg = render_background(6, 6, &style);
    let mut frame = Raster::new(2, 2);
    frame.fill(Color { r: 9, g: 9, b: 9, a: 255 });
    let out = composite_frame(&bg, &frame, &style);
    // A pixel one step outside the frame rectangle is no longer pure white.
    let near = out.get_pixel(1, 2);
    assert!(near.r < 255 && near.g < 255 && near.b < 255, "shadow missing: {:?}", near);
    // A far corner stays white.
    assert_eq!(out.get_pixel(0, 5).r, 255);
}
