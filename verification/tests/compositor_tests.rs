use openscreen::color::Color;
use openscreen::compositor::{apply_zoom_crop, Compositor};
use openscreen::effects::{Background, FrameStyle, Shadow, ZoomConfig};
use openscreen::events::{EventType, MouseButton, MouseEvent, RecordedEvents};
use openscreen::raster::Raster;
use openscreen::zoom::FrameViewport;

fn neutral_viewport(w: u32, h: u32) -> FrameViewport {
    FrameViewport {
        x: 0,
        y: 0,
        width: (w as u64) * 1000,
        height: (h as u64) * 1000,
        zoom: 1000,
        center_x: (w as u64) * 500,
        center_y: (h as u64) * 500,
    }
}

#[test]
fn test_apply_zoom_crop_pass_through() {
    let mut source = Raster::new(3, 2);
    source.fill(Color { r: 7, g: 8, b: 9, a: 255 });
    source.put_pixel(1, 1, Color { r: 1, g: 2, b: 3, a: 255 });
    let out = apply_zoom_crop(&source, &neutral_viewport(3, 2), 3, 2);
    assert_eq!(out.width, 3);
    assert_eq!(out.height, 2);
    assert_eq!(out.pixels, source.pixels);
}

#[test]
fn test_apply_zoom_crop_resamples_to_target() {
    // A neutral zoom with mismatched dimensions goes through the
    // resampler: the output buffer has the target size, not the source's.
    let mut source = Raster::new(4, 4);
    source.fill(Color { r: 50, g: 100, b: 150, a: 255 });
    let out = apply_zoom_crop(&source, &neutral_viewport(4, 4), 2, 2);
    assert_eq!(out.width, 2);
    assert_eq!(out.height, 2);
    assert_eq!(out.pixels.len(), 4);
    // A constant image stays constant under resampling.
    assert_eq!(out.get_pixel(0, 0), Color { r: 50, g: 100, b: 150, a: 255 });
}

#[test]
fn test_apply_zoom_crop_zoomed_crop() {
    // A two-fold zoom centred on the source crops the middle half and
    // scales it back up.
    let mut source = Raster::new(4, 4);
    source.fill(Color { r: 0, g: 0, b: 0, a: 255 });
    // Make the centre 2x2 window white.
    for y in 1..3 {
        for x in 1..3 {
            source.put_pixel(x, y, Color { r: 255, g: 255, b: 255, a: 255 });
        }
    }
    let viewport = FrameViewport {
        x: 1000,
        y: 1000,
        width: 2000,
        height: 2000,
        zoom: 2000,
        center_x: 2000,
        center_y: 2000,
    };
    let out = apply_zoom_crop(&source, &viewport, 4, 4);
    assert_eq!(out.width, 4);
    assert_eq!(out.height, 4);
    // The crop held only white pixels, so the upscaled frame is white.
    assert_eq!(out.get_pixel(0, 0), Color { r: 255, g: 255, b: 255, a: 255 });
    assert_eq!(out.get_pixel(3, 3), Color { r: 255, g: 255, b: 255, a: 255 });
}

fn plain_style() -> FrameStyle {
    FrameStyle {
        background: Background::Solid { color: "#0000FF".to_string() },
        padding: 1,
        corner_radius: 0,
        shadow: Shadow {
            offset_x: 0,
            offset_y: 0,
            blur: 0,
            color: "#000000".to_string(),
            opacity: 300,
        },
        ..FrameStyle::default()
    }
}

#[test]
fn test_compositor_new_sizes_canvas() {
    let events = RecordedEvents::new(1920, 1080);
    let compositor = Compositor::new(plain_style(), &ZoomConfig::default(), &events, 1920, 1080);
    assert_eq!(compositor.output_width, 1922);
    assert_eq!(compositor.output_height, 1082);
    assert!(compositor.zoom_keyframes.is_empty());
}

#[test]
fn test_compositor_get_viewport_no_clicks() {
    let events = RecordedEvents::new(1920, 1080);
    let compositor = Compositor::new(plain_style(), &ZoomConfig::default(), &events, 1920, 1080);
    let viewport = compositor.get_viewport(500);
    assert_eq!(viewport.zoom, 1000);
    assert_eq!(viewport.width, 1920 * 1000);
}

#[test]
fn test_compositor_get_viewport_during_click_hold() {
    let mut events = RecordedEvents::new(1920, 1080);
    events.mouse_events.push(MouseEvent {
        timestamp_ms: 0,
        x: 960,
        y: 540,
        event_type: EventType::Click,
        button: MouseButton::Left,
    });
    let compositor = Compositor::new(plain_style(), &ZoomConfig::default(), &events, 1920, 1080);
    let viewport = compositor.get_viewport(400);
    assert_eq!(viewport.zoom, 2000);
    assert_eq!(viewport.width, 960 * 1000);
}

#[test]
fn test_compose_frame_dimensions_and_border() {
    let events = RecordedEvents::new(2, 2);
    let compositor = Compositor::new(plain_style(), &ZoomConfig::default(), &events, 2, 2);
    let mut source = Raster::new(2, 2);
    source.fill(Color { r: 255, g: 255, b: 255, a: 255 });
    let out = compositor.compose_frame(&source, 0);
    assert_eq!(out.width, 4);
    assert_eq!(out.height, 4);
    // The padding border keeps the background fill; the centre holds the
    // frame.
    assert_eq!(out.get_pixel(0, 0), Color { r: 0, g: 0, b: 255, a: 255 });
    assert_eq!(out.get_pixel(1, 1), Color { r: 255, g: 255, b: 255, a: 255 });
}
