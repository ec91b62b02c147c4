use openscreen::effects::{
    AspectRatio, Background, CursorConfig, EasingType, ExportConfig, ExportFormat,
    ExportResolution, FrameStyle, Shadow, ZoomConfig,
};

#[test]
fn test_export_resolution_dimensions() {
    assert_eq!(ExportResolution::R720p.dimensions(), (1280, 720));
    assert_eq!(ExportResolution::R1080p.dimensions(), (1920, 1080));
    assert_eq!(ExportResolution::R4k.dimensions(), (3840, 2160));
    assert_eq!(ExportResolution::Custom { width: 800, height: 600 }.dimensions(), (800, 600));
}

#[test]
fn test_zoom_config_default_values() {
    let config = ZoomConfig::default();
    assert!(config.enabled);
    assert_eq!(config.zoom_level, 2000);
    assert_eq!(config.zoom_in_duration_ms, 300);
    assert_eq!(config.hold_duration_ms, 500);
    assert_eq!(config.zoom_out_duration_ms, 300);
    assert!(matches!(config.easing, EasingType::EaseInOut));
}

#[test]
fn test_cursor_config_default_values() {
    let config = CursorConfig::default();
    assert_eq!(config.smoothing, 500);
    assert_eq!(config.auto_hide_after_ms, 3000);
    assert!(config.highlight_clicks);
    assert_eq!(config.highlight_color, "#FFD700");
    assert_eq!(config.highlight_radius, 30);
}

#[test]
fn test_frame_style_default_values() {
    let style = FrameStyle::default();
    assert_eq!(style.padding, 64);
    assert_eq!(style.corner_radius, 12);
    assert!(matches!(style.aspect_ratio, AspectRatio::Auto));
    match &style.background {
        Background::Gradient { colors, dir_x, dir_y } => {
            assert_eq!(colors.len(), 2);
            assert_eq!(colors[0], "#667eea");
            assert_eq!(colors[1], "#764ba2");
            assert_eq!(*dir_x, -707);
            assert_eq!(*dir_y, 707);
        },
        _ => panic!("default background should be a gradient"),
    }
}

#[test]
fn test_shadow_default_values() {
    let shadow = Shadow::default();
    assert_eq!(shadow.offset_x, 0);
    assert_eq!(shadow.offset_y, 8);
    assert_eq!(shadow.blur, 32);
    assert_eq!(shadow.color, "#000000");
    assert_eq!(shadow.opacity, 300);
}

#[test]
fn test_export_config_default_values() {
    let config = ExportConfig::default();
    assert!(matches!(config.format, ExportFormat::Mp4));
    assert!(matches!(config.resolution, ExportResolution::R1080p));
    assert_eq!(config.quality, 800);
    assert_eq!(config.output_path, "");
}
