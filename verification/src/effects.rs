//! Visual-effect configuration: zoom behaviour, cursor behaviour, frame
//! styling and export settings.
//!
//! Fractional quantities (zoom factors, smoothing strength, opacities,
//! quality) are stored in thousandths, so `zoom_level == 2000` means a
//! two-fold zoom and `opacity == 300` means 30% opacity.

use vstd::prelude::*;

verus! {

/// Easing curve applied to the zoom-in and zoom-out phases.
#[derive(Debug, Clone, Copy, PartialEq, Eq, Structural)]
pub enum EasingType {
    Linear,
    EaseIn,
    EaseOut,
    EaseInOut,
}

impl Default for EasingType {
    fn default() -> (r: Self)
        ensures
            r == EasingType::EaseInOut,
    {
        EasingType::EaseInOut
    }
}

/// Configuration of the click-driven zoom animation.
#[derive(Debug, Clone, PartialEq, Eq, Structural)]
pub struct ZoomConfig {
    pub enabled: bool,
    /// Peak zoom factor in thousandths; 2000 is a two-fold zoom.
    pub zoom_level: u64,
    /// Duration of the zoom-in phase in milliseconds.
    pub zoom_in_duration_ms: u64,
    /// Duration of the hold phase in milliseconds.
    pub hold_duration_ms: u64,
    /// Duration of the zoom-out phase in milliseconds.
    pub zoom_out_duration_ms: u64,
    pub easing: EasingType,
}

impl Default for ZoomConfig {
    fn default() -> (r: Self)
        ensures
            r.enabled,
            r.zoom_level == 2000,
            r.zoom_in_duration_ms == 300,
            r.hold_duration_ms == 500,
            r.zoom_out_duration_ms == 300,
            r.easing == EasingType::EaseInOut,
    {
        ZoomConfig {
            enabled: true,
            zoom_level: 2000,
            zoom_in_duration_ms: 300,
            hold_duration_ms: 500,
            zoom_out_duration_ms: 300,
            easing: EasingType::EaseInOut,
        }
    }
}

/// Configuration of the cursor overlay.
#[derive(Debug, Clone)]
pub struct CursorConfig {
    /// Smoothing strength in thousandths of the unit interval; 500 is 0.5.
    pub smoothing: u64,
    /// The cursor is hidden this many milliseconds after the last activity.
    pub auto_hide_after_ms: u64,
    pub highlight_clicks: bool,
    pub highlight_color: String,
    pub highlight_radius: u32,
}

impl Default for CursorConfig {
    fn default() -> (r: Self)
        ensures
            r.smoothing == 500,
            r.auto_hide_after_ms == 3000,
            r.highlight_clicks,
            r.highlight_color@ == "#FFD700"@,
            r.highlight_radius == 30,
    {
        CursorConfig {
            smoothing: 500,
            auto_hide_after_ms: 3000,
            highlight_clicks: true,
            highlight_color: "#FFD700".to_owned(),
            highlight_radius: 30,
        }
    }
}

/// Background of the output canvas.
///
/// A gradient is described by its ordered colour stops and by the unit
/// direction vector of its axis, held in thousandths. The serialized
/// interface carries the axis as an angle in degrees; the embedding shell
/// converts the angle to this vector when it hands a style to the library.
#[derive(Debug, Clone)]
pub enum Background {
    Solid { color: String },
    Gradient { colors: Vec<String>, dir_x: i64, dir_y: i64 },
    Image { path: String },
}

impl Default for Background {
    fn default() -> (r: Self)
        ensures
            r matches Background::Gradient { colors, dir_x, dir_y } && colors@.len() == 2
                && colors@[0]@ == "#667eea"@ && colors@[1]@ == "#764ba2"@ && dir_x == -707
                && dir_y == 707,
    {
        let mut colors: Vec<String> = Vec::new();
        colors.push("#667eea".to_owned());
        colors.push("#764ba2".to_owned());
        // A 135-degree axis: (cos 135°, sin 135°) in thousandths.
        Background::Gradient { colors, dir_x: -707, dir_y: 707 }
    }
}

/// Drop shadow drawn behind the video frame.
#[derive(Debug, Clone)]
pub struct Shadow {
    /// Horizontal shift of the shadow in pixels.
    pub offset_x: i64,
    /// Vertical shift of the shadow in pixels.
    pub offset_y: i64,
    /// Falloff distance in pixels.
    pub blur: u32,
    pub color: String,
    /// Opacity in thousandths; 300 is 30%.
    pub opacity: u64,
}

impl Default for Shadow {
    fn default() -> (r: Self)
        ensures
            r.offset_x == 0,
            r.offset_y == 8,
            r.blur == 32,
            r.color@ == "#000000"@,
            r.opacity == 300,
    {
        Shadow {
            offset_x: 0,
            offset_y: 8,
            blur: 32,
            color: "#000000".to_owned(),
            opacity: 300,
        }
    }
}

#[derive(Debug, Clone, Copy, PartialEq, Eq, Structural)]
pub enum AspectRatio {
    Auto,
    Ratio16x9,
    Ratio9x16,
    Ratio1x1,
}

impl Default for AspectRatio {
    fn default() -> (r: Self)
        ensures
            r == AspectRatio::Auto,
    {
        AspectRatio::Auto
    }
}

/// Styling of the composited frame: background, padding, corner rounding
/// and shadow.
#[derive(Debug, Clone)]
pub struct FrameStyle {
    pub background: Background,
    /// Padding around the video frame in pixels, per side.
    pub padding: u32,
    /// Corner rounding radius of the video frame in pixels.
    pub corner_radius: u32,
    pub shadow: Shadow,
    pub aspect_ratio: AspectRatio,
}

impl Default for FrameStyle {
    fn default() -> (r: Self)
        ensures
            r.padding == 64,
            r.corner_radius == 12,
            r.aspect_ratio == AspectRatio::Auto,
            r.shadow.blur == 32,
    {
        FrameStyle {
            background: Background::default(),
            padding: 64,
            corner_radius: 12,
            shadow: Shadow::default(),
            aspect_ratio: AspectRatio::Auto,
        }
    }
}

#[derive(Debug, Clone, Copy, PartialEq, Eq, Structural)]
pub enum ExportFormat {
    Mp4,
    Gif,
}

impl Default for ExportFormat {
    fn default() -> (r: Self)
        ensures
            r == ExportFormat::Mp4,
    {
        ExportFormat::Mp4
    }
}

#[derive(Debug, Clone, Copy, PartialEq, Eq, Structural)]
pub enum ExportResolution {
    R720p,
    R1080p,
    R4k,
    Custom { width: u32, height: u32 },
}

impl Default for ExportResolution {
    fn default() -> (r: Self)
        ensures
            r == ExportResolution::R1080p,
    {
        ExportResolution::R1080p
    }
}

impl ExportResolution {
    /// The output dimensions in pixels that this resolution stands for.
    pub fn dimensions(&self) -> (d: (u32, u32))
        ensures
            d == match *self {
                ExportResolution::R720p => (1280u32, 720u32),
                ExportResolution::R1080p => (1920u32, 1080u32),
                ExportResolution::R4k => (3840u32, 2160u32),
                ExportResolution::Custom { width, height } => (width, height),
            },
    {
        match self {
            ExportResolution::R720p => (1280, 720),
            ExportResolution::R1080p => (1920, 1080),
            ExportResolution::R4k => (3840, 2160),
            ExportResolution::Custom { width, height } => (*width, *height),
        }
    }
}

/// Settings used when exporting the rendered frames.
#[derive(Debug, Clone)]
pub struct ExportConfig {
    pub format: ExportFormat,
    pub resolution: ExportResolution,
    /// Encoder quality in thousandths of the unit interval; 800 is 0.8.
    pub quality: u64,
    pub output_path: String,
}

impl Default for ExportConfig {
    fn default() -> (r: Self)
        ensures
            r.format == ExportFormat::Mp4,
            r.resolution == ExportResolution::R1080p,
            r.quality == 800,
            r.output_path@.len() == 0,
    {
        ExportConfig {
            format: ExportFormat::Mp4,
            resolution: ExportResolution::R1080p,
            quality: 800,
            output_path: String::new(),
        }
    }
}

} // verus!
