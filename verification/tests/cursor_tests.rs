use openscreen::cursor::{check_cursor_visible, get_click_highlight, get_cursor_at_time};
use openscreen::effects::CursorConfig;
use openscreen::events::{EventType, MouseButton, MouseEvent};

fn make_event(timestamp_ms: u64, x: i64, y: i64, event_type: EventType) -> MouseEvent {
    MouseEvent { timestamp_ms, x, y, event_type, button: MouseButton::Left }
}

fn default_config() -> CursorConfig {
    CursorConfig::default()
}

#[test]
fn test_get_cursor_at_time_empty_events() {
    let state = get_cursor_at_time(100, &vec![], &default_config());
    assert!(!state.visible);
    assert_eq!(state.x, 0);
    assert_eq!(state.y, 0);
}

#[test]
fn test_get_cursor_at_time_single_event() {
    let events = vec![make_event(100, 500, 300, EventType::Move)];
    let config = CursorConfig { smoothing: 0, ..default_config() };
    let state = get_cursor_at_time(100, &events, &config);
    assert_eq!(state.x, 500);
    assert_eq!(state.y, 300);
}

#[test]
fn test_check_cursor_visible_after_activity() {
    let events = vec![make_event(100, 500, 300, EventType::Move)];
    // 100ms after activity with 3000ms timeout — should be visible
    assert!(check_cursor_visible(&events, 0, 200, 3000));
}

#[test]
fn test_check_cursor_hidden_after_timeout() {
    let events = vec![make_event(100, 500, 300, EventType::Move)];
    // 5000ms after activity with 3000ms timeout — should be hidden
    assert!(!check_cursor_visible(&events, 0, 5100, 3000));
}

#[test]
fn test_get_click_highlight_no_recent_click() {
    let events = vec![make_event(100, 500, 300, EventType::Move)];
    let result = get_click_highlight(&events, 200);
    assert!(result.is_none());
}

#[test]
fn test_get_click_highlight_active_click() {
    let events = vec![make_event(100, 500, 300, EventType::Click)];
    let result = get_click_highlight(&events, 300);
    assert!(result.is_some());
    let hl = result.unwrap();
    assert_eq!(hl.progress, 500); // 200ms into 400ms
    assert_eq!(hl.x, 500);
}

#[test]
fn test_get_click_highlight_expired() {
    let events = vec![make_event(100, 500, 300, EventType::Click)];
    let result = get_click_highlight(&events, 600); // 500ms after click, > 400ms duration
    assert!(result.is_none());
}

#[test]
fn test_smooth_position_zero_smoothing() {
    let events = vec![
        make_event(100, 100, 100, EventType::Move),
        make_event(200, 500, 500, EventType::Move),
    ];
    let config = CursorConfig { smoothing: 0, ..default_config() };
    let state = get_cursor_at_time(200, &events, &config);
    assert_eq!(state.x, 500);
    assert_eq!(state.y, 500);
}

#[test]
fn test_smoothing_averages_nearby_events() {
    // Two events 10ms apart inside a 50ms window: the smoothed position
    // lies strictly between the raw positions.
    let events = vec![
        make_event(100, 100, 100, EventType::Move),
        make_event(110, 200, 200, EventType::Move),
    ];
    let config = CursorConfig { smoothing: 500, ..default_config() };
    let state = get_cursor_at_time(110, &events, &config);
    assert!(state.x > 100 && state.x < 200, "smoothed x out of range: {}", state.x);
    assert!(state.y > 100 && state.y < 200, "smoothed y out of range: {}", state.y);
}

#[test]
fn test_scroll_only_history_is_invisible() {
    let events = vec![make_event(100, 500, 300, EventType::Scroll)];
    let state = get_cursor_at_time(200, &events, &default_config());
    assert!(!state.visible);
}
