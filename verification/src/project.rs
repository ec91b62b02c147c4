//! Project metadata: one recording with its configuration, plus the
//! summaries and state records the embedding shell exchanges.

use vstd::prelude::*;
use crate::clock::unix_millis_now;
use crate::effects::{
    AspectRatio, Background, CursorConfig, EasingType, ExportConfig, ExportFormat,
    ExportResolution, FrameStyle, ZoomConfig,
};

verus! {

/// One recorded project and everything needed to render it.
#[derive(Debug, Clone)]
pub struct Project {
    pub id: String,
    pub name: String,
    /// Unix milliseconds at creation.
    pub created_at: u64,
    pub video_path: String,
    pub events_path: String,
    pub duration_ms: u64,
    pub width: u32,
    pub height: u32,
    /// Frames per second of the recording.
    pub fps: u32,
    pub zoom_config: ZoomConfig,
    pub cursor_config: CursorConfig,
    pub frame_style: FrameStyle,
    pub export_config: ExportConfig,
}

impl Project {
    /// A fresh project around one recording, with every configuration
    /// at its default and the creation time read from the clock.
    pub fn new(
        id: String,
        name: String,
        video_path: String,
        events_path: String,
        width: u32,
        height: u32,
        fps: u32,
    ) -> (r: Project)
        ensures
            r.id@ == id@,
            r.name@ == name@,
            r.video_path@ == video_path@,
            r.events_path@ == events_path@,
            r.duration_ms == 0,
            r.width == width,
            r.height == height,
            r.fps == fps,
            r.zoom_config == (ZoomConfig {
                enabled: true,
                zoom_level: 2000,
                zoom_in_duration_ms: 300,
                hold_duration_ms: 500,
                zoom_out_duration_ms: 300,
                easing: EasingType::EaseInOut,
            }),
            r.cursor_config.smoothing == 500,
            r.cursor_config.auto_hide_after_ms == 3000,
            r.cursor_config.highlight_clicks,
            r.frame_style.padding == 64,
            r.frame_style.corner_radius == 12,
            r.export_config.format == ExportFormat::Mp4,
            r.export_config.resolution == ExportResolution::R1080p,
            r.export_config.quality == 800,
    {
        Project {
            id,
            name,
            created_at: unix_millis_now(),
            video_path,
            events_path,
            duration_ms: 0,
            width,
            height,
            fps,
            zoom_config: ZoomConfig::default(),
            cursor_config: CursorConfig::default(),
            frame_style: FrameStyle::default(),
            export_config: ExportConfig::default(),
        }
    }
}

/// The shape of a project shown in listings.
#[derive(Debug, Clone)]
pub struct ProjectSummary {
    pub id: String,
    pub name: String,
    pub created_at: u64,
    pub duration_ms: u64,
    pub thumbnail_path: Option<String>,
}

/// One attached display.
#[derive(Debug, Clone)]
pub struct DisplayInfo {
    pub id: u32,
    pub name: String,
    pub width: u32,
    pub height: u32,
    pub is_primary: bool,
}

/// The live state of the recorder.
#[derive(Debug, Clone)]
pub struct RecordingState {
    pub is_recording: bool,
    pub is_paused: bool,
    pub duration_ms: u64,
    pub project_id: Option<String>,
}

impl Default for RecordingState {
    fn default() -> (r: Self)
        ensures
            !r.is_recording,
            !r.is_paused,
            r.duration_ms == 0,
            r.project_id is None,
    {
        RecordingState {
            is_recording: false,
            is_paused: false,
            duration_ms: 0,
            project_id: None,
        }
    }
}

} // verus!
