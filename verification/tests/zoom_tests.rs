use openscreen::effects::{EasingType, ZoomConfig};
use openscreen::events::{EventType, MouseButton, MouseEvent};
use openscreen::zoom::{apply_easing, compute_zoom_at_time, generate_zoom_keyframes, ZoomKeyframe};

fn linear_keyframe(start_ms: u64) -> ZoomKeyframe {
    ZoomKeyframe {
        start_ms,
        end_ms: start_ms + 1100,
        center_x: 960,
        center_y: 540,
        peak_zoom: 2000,
        zoom_in_ms: 300,
        hold_ms: 500,
        zoom_out_ms: 300,
        easing: EasingType::Linear,
    }
}

#[test]
fn test_easing_boundaries() {
    for easing in &[
        EasingType::Linear,
        EasingType::EaseIn,
        EasingType::EaseOut,
        EasingType::EaseInOut,
    ] {
        let start = apply_easing(0, easing);
        let end = apply_easing(1000, easing);
        assert!(start == 0, "Easing should start at 0");
        assert!(end == 1000, "Easing should end at 1");
    }
}

#[test]
fn test_no_zoom_returns_full_viewport() {
    let viewport = compute_zoom_at_time(500, &vec![], 1920, 1080);
    assert_eq!(viewport.zoom, 1000);
    assert_eq!(viewport.width, 1920 * 1000);
    assert_eq!(viewport.height, 1080 * 1000);
}

#[test]
fn test_zoom_at_peak() {
    let kf = linear_keyframe(0);
    // At the hold phase (400ms in)
    let viewport = compute_zoom_at_time(400, &vec![kf], 1920, 1080);
    assert_eq!(viewport.zoom, 2000);
    assert_eq!(viewport.width, 960 * 1000);
}

#[test]
fn test_easing_midpoint() {
    let linear = apply_easing(500, &EasingType::Linear);
    assert_eq!(linear, 500);

    let ease_in = apply_easing(500, &EasingType::EaseIn);
    assert!(ease_in < 500, "EaseIn at midpoint should be below 0.5, got {ease_in}");

    let ease_out = apply_easing(500, &EasingType::EaseOut);
    assert!(ease_out > 500, "EaseOut at midpoint should be above 0.5, got {ease_out}");

    let ease_in_out = apply_easing(500, &EasingType::EaseInOut);
    assert_eq!(ease_in_out, 500, "EaseInOut at midpoint should be 0.5, got {ease_in_out}");
}

#[test]
fn test_easing_monotonicity() {
    for easing in &[
        EasingType::Linear,
        EasingType::EaseIn,
        EasingType::EaseOut,
        EasingType::EaseInOut,
    ] {
        let mut prev = 0u64;
        for i in 1..=100u64 {
            let t = i * 10;
            let val = apply_easing(t, easing);
            assert!(val >= prev, "Easing {:?} not monotonic at t={t}: {val} < {prev}", easing);
            prev = val;
        }
    }
}

#[test]
fn test_zoom_in_phase_partial() {
    let kf = linear_keyframe(1000);
    // 150ms into a 300ms zoom-in with linear easing = 50% progress = zoom 1.5
    let viewport = compute_zoom_at_time(1150, &vec![kf], 1920, 1080);
    assert_eq!(viewport.zoom, 1500, "Expected zoom 1.5, got {}", viewport.zoom);
}

#[test]
fn test_zoom_out_phase() {
    let kf = linear_keyframe(0);
    // 150ms into the 300ms zoom-out phase (at 950ms total)
    let viewport = compute_zoom_at_time(950, &vec![kf], 1920, 1080);
    assert_eq!(viewport.zoom, 1500, "Expected zoom 1.5, got {}", viewport.zoom);
}

#[test]
fn test_zoom_outside_keyframe_returns_no_zoom() {
    let kf = linear_keyframe(1000);

    let viewport = compute_zoom_at_time(500, &vec![kf.clone()], 1920, 1080);
    assert_eq!(viewport.zoom, 1000);

    let viewport = compute_zoom_at_time(3000, &vec![kf], 1920, 1080);
    assert_eq!(viewport.zoom, 1000);
}

#[test]
fn test_viewport_clamping_near_edge() {
    let kf = ZoomKeyframe {
        start_ms: 0,
        end_ms: 1100,
        center_x: 10,  // very near left edge
        center_y: 10,  // very near top edge
        peak_zoom: 2000,
        zoom_in_ms: 300,
        hold_ms: 500,
        zoom_out_ms: 300,
        easing: EasingType::Linear,
    };

    let viewport = compute_zoom_at_time(400, &vec![kf], 1920, 1080);
    assert!(viewport.x + viewport.width <= 1920 * 1000, "Crop should not exceed source width");
    assert!(viewport.y + viewport.height <= 1080 * 1000, "Crop should not exceed source height");
    assert_eq!(viewport.x, 0, "Crop x should be clamped to the left edge, got {}", viewport.x);
    assert_eq!(viewport.y, 0, "Crop y should be clamped to the top edge, got {}", viewport.y);
}

#[test]
fn test_zoom_tie_break_first_keyframe_wins() {
    // Two keyframes reach the same peak at the same time: the first one
    // keeps the centre; the later equal factor does not override it.
    let first = ZoomKeyframe { center_x: 600, center_y: 500, ..linear_keyframe(0) };
    let second = ZoomKeyframe { center_x: 1200, center_y: 700, ..linear_keyframe(0) };
    let viewport = compute_zoom_at_time(400, &vec![first, second], 1920, 1080);
    assert_eq!(viewport.zoom, 2000);
    assert_eq!(viewport.center_x, 600 * 1000);
    assert_eq!(viewport.center_y, 500 * 1000);
}

#[test]
fn test_generate_zoom_keyframes_empty_events() {
    let config = ZoomConfig::default();
    let result = generate_zoom_keyframes(&vec![], &config);
    assert!(result.is_empty());
}

#[test]
fn test_generate_zoom_keyframes_disabled() {
    let config = ZoomConfig { enabled: false, ..ZoomConfig::default() };
    let event = MouseEvent {
        timestamp_ms: 100,
        x: 500,
        y: 300,
        event_type: EventType::Click,
        button: MouseButton::Left,
    };
    let result = generate_zoom_keyframes(&vec![event], &config);
    assert!(result.is_empty());
}

#[test]
fn test_generate_zoom_keyframes_maps_clicks() {
    let config = ZoomConfig::default();
    let event = MouseEvent {
        timestamp_ms: 100,
        x: 500,
        y: 300,
        event_type: EventType::Click,
        button: MouseButton::Left,
    };
    let result = generate_zoom_keyframes(&vec![event], &config);
    assert_eq!(result.len(), 1);
    assert_eq!(result[0].start_ms, 100);
    assert_eq!(result[0].end_ms, 100 + 300 + 500 + 300);
    assert_eq!(result[0].center_x, 500);
    assert_eq!(result[0].center_y, 300);
    assert_eq!(result[0].peak_zoom, 2000);
}
