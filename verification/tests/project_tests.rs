use openscreen::project::{Project, RecordingState};

#[test]
fn test_project_new_defaults() {
    let project = Project::new(
        "test-123".to_string(),
        "My Recording".to_string(),
        "/tmp/video.mp4".to_string(),
        "/tmp/events.json".to_string(),
        1920,
        1080,
        30,
    );

    assert_eq!(project.id, "test-123");
    assert_eq!(project.name, "My Recording");
    assert_eq!(project.width, 1920);
    assert_eq!(project.height, 1080);
    assert_eq!(project.fps, 30);
    assert_eq!(project.duration_ms, 0);
    assert!(project.zoom_config.enabled);
}

#[test]
fn test_project_new_created_at_nonzero() {
    let project = Project::new(
        "test".to_string(),
        "Test".to_string(),
        "".to_string(),
        "".to_string(),
        100,
        100,
        30,
    );
    assert!(project.created_at > 0, "created_at should be a real timestamp");
}

#[test]
fn test_recording_state_default() {
    let state = RecordingState::default();
    assert!(!state.is_recording);
    assert!(!state.is_paused);
    assert_eq!(state.duration_ms, 0);
    assert!(state.project_id.is_none());
}
