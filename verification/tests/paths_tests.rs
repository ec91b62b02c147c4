use openscreen::clock::{chrono_like_now, format_clock_label};
use openscreen::paths::{project_events_path, project_metadata_path, project_video_path};

#[test]
fn test_project_video_path_contains_id() {
    let path = project_video_path("abc-123");
    let path_str = path.as_str();
    assert!(path_str.contains("abc-123"), "Path should contain project ID: {path_str}");
    assert!(path_str.ends_with("recording.mp4"));
}

#[test]
fn test_project_events_path_contains_id() {
    let path = project_events_path("abc-123");
    let path_str = path.as_str();
    assert!(path_str.contains("abc-123"), "Path should contain project ID: {path_str}");
    assert!(path_str.ends_with("events.json"));
}

#[test]
fn test_project_metadata_path_contains_id() {
    let path = project_metadata_path("abc-123");
    let path_str = path.as_str();
    assert!(path_str.contains("abc-123"), "Path should contain project ID: {path_str}");
    assert!(path_str.ends_with("project.json"));
}

#[test]
fn test_format_clock_label_exact() {
    // 1 hour, 2 minutes, 3 seconds past midnight.
    assert_eq!(format_clock_label(3723), "01:02:03");
    // A day boundary wraps the hour dial.
    assert_eq!(format_clock_label(24 * 3600 + 59), "00:00:59");
}

#[test]
fn test_chrono_like_now_shape() {
    let label = chrono_like_now();
    assert_eq!(label.len(), 8);
    let bytes = label.as_bytes();
    assert_eq!(bytes[2], b':');
    assert_eq!(bytes[5], b':');
}
