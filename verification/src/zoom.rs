//! The keyframe engine: derives zoom keyframes from click events and
//! computes the crop viewport for any output timestamp.
//!
//! Zoom factors and easing values are held in thousandths (2000 is a
//! two-fold zoom); viewport geometry is held in thousandths of a pixel.

use vstd::prelude::*;
use crate::effects::{EasingType, ZoomConfig};
use crate::events::MouseEvent;

verus! {

/// `t` confined to the unit interval in thousandths.
pub open spec fn clamp_unit(t: int) -> int {
    if t < 0 {
        0
    } else if t > 1000 {
        1000
    } else {
        t
    }
}

/// The easing curve `e` evaluated at `t` thousandths of normalized time,
/// in thousandths: linear, cubic ease-in, cubic ease-out, or the
/// symmetric cubic ease-in-out.
pub open spec fn spec_ease(t: int, e: EasingType) -> int {
    let c = clamp_unit(t);
    match e {
        EasingType::Linear => c,
        EasingType::EaseIn => c * c * c / 1000000,
        EasingType::EaseOut => 1000 - (1000 - c) * (1000 - c) * (1000 - c) / 1000000,
        EasingType::EaseInOut => if c < 500 {
            4 * (c * c * c) / 1000000
        } else {
            1000 - (2000 - 2 * c) * (2000 - 2 * c) * (2000 - 2 * c) / 2000000
        },
    }
}

proof fn lemma_cube_range(lo: int, hi: int, x: int)
    requires
        0 <= lo <= x <= hi,
    ensures
        lo * lo <= x * x <= hi * hi,
        lo * lo * lo <= x * x * x <= hi * hi * hi,
{
    assert(lo * lo <= x * x <= hi * hi && lo * lo * lo <= x * x * x <= hi * hi * hi)
        by (nonlinear_arith)
        requires
            0 <= lo <= x <= hi,
    ;
}

/// Every easing value lies in the unit interval, in thousandths.
pub proof fn lemma_ease_bounds(t: int, e: EasingType)
    ensures
        0 <= spec_ease(t, e) <= 1000,
{
    let c = clamp_unit(t);
    lemma_cube_range(0, 1000, c);
    lemma_cube_range(0, 1000, 1000 - c);
    vstd::arithmetic::div_mod::lemma_div_is_ordered(c * c * c, 1000000000, 1000000);
    vstd::arithmetic::div_mod::lemma_div_is_ordered(
        (1000 - c) * (1000 - c) * (1000 - c),
        1000000000,
        1000000,
    );
    vstd::arithmetic::div_mod::lemma_div_pos_is_pos(c * c * c, 1000000);
    vstd::arithmetic::div_mod::lemma_div_pos_is_pos(
        (1000 - c) * (1000 - c) * (1000 - c),
        1000000,
    );
    if c < 500 {
        lemma_cube_range(0, 500, c);
        vstd::arithmetic::div_mod::lemma_div_is_ordered(4 * (c * c * c), 500000000, 1000000);
        vstd::arithmetic::div_mod::lemma_div_pos_is_pos(4 * (c * c * c), 1000000);
    } else {
        lemma_cube_range(0, 1000, 2000 - 2 * c);
        vstd::arithmetic::div_mod::lemma_div_is_ordered(
            (2000 - 2 * c) * (2000 - 2 * c) * (2000 - 2 * c),
            1000000000,
            2000000,
        );
        vstd::arithmetic::div_mod::lemma_div_pos_is_pos(
            (2000 - 2 * c) * (2000 - 2 * c) * (2000 - 2 * c),
            2000000,
        );
    }
}

/// Every easing curve starts at zero and ends at one.
pub proof fn lemma_ease_endpoints(e: EasingType)
    ensures
        spec_ease(0, e) == 0,
        spec_ease(1000, e) == 1000,
{
    assert(0int * 0 * 0 == 0 && 1000int * 1000 * 1000 == 1000000000 && 4int * (0 * 0 * 0) == 0
        && 0int * 0 == 0) by (nonlinear_arith);
    assert(1000000000int / 1000000 == 1000) by {
        vstd::arithmetic::div_mod::lemma_div_by_multiple(1000, 1000000);
    }
    assert(0int / 1000000 == 0) by {
        vstd::arithmetic::div_mod::lemma_div_of0(1000000);
    }
    assert(0int / 2000000 == 0) by {
        vstd::arithmetic::div_mod::lemma_div_of0(2000000);
    }
}

/// Every easing curve is monotonically non-decreasing.
pub proof fn lemma_ease_monotonic(e: EasingType, t1: int, t2: int)
    requires
        t1 <= t2,
    ensures
        spec_ease(t1, e) <= spec_ease(t2, e),
{
    let c1 = clamp_unit(t1);
    let c2 = clamp_unit(t2);
    assert(0 <= c1 <= c2 <= 1000);
    match e {
        EasingType::Linear => {},
        EasingType::EaseIn => {
            lemma_cube_range(c1, 1000, c2);
            lemma_cube_range(0, c2, c1);
            vstd::arithmetic::div_mod::lemma_div_is_ordered(c1 * c1 * c1, c2 * c2 * c2, 1000000);
        },
        EasingType::EaseOut => {
            lemma_cube_range(1000 - c2, 1000, 1000 - c1);
            lemma_cube_range(0, 1000 - c1, 1000 - c2);
            vstd::arithmetic::div_mod::lemma_div_is_ordered(
                (1000 - c2) * (1000 - c2) * (1000 - c2),
                (1000 - c1) * (1000 - c1) * (1000 - c1),
                1000000,
            );
        },
        EasingType::EaseInOut => {
            if c2 < 500 {
                lemma_cube_range(0, c2, c1);
                lemma_cube_range(c1, 500, c2);
                vstd::arithmetic::div_mod::lemma_div_is_ordered(
                    4 * (c1 * c1 * c1),
                    4 * (c2 * c2 * c2),
                    1000000,
                );
            } else if c1 >= 500 {
                lemma_cube_range(0, 2000 - 2 * c1, 2000 - 2 * c2);
                lemma_cube_range(2000 - 2 * c2, 1000, 2000 - 2 * c1);
                vstd::arithmetic::div_mod::lemma_div_is_ordered(
                    (2000 - 2 * c2) * (2000 - 2 * c2) * (2000 - 2 * c2),
                    (2000 - 2 * c1) * (2000 - 2 * c1) * (2000 - 2 * c1),
                    2000000,
                );
            } else {
                // The first piece stays at or below the midpoint value and
                // the second piece stays at or above it.
                lemma_cube_range(0, 500, c1);
                vstd::arithmetic::div_mod::lemma_div_is_ordered(
                    4 * (c1 * c1 * c1),
                    500000000,
                    1000000,
                );
                assert(500000000int / 1000000 == 500) by {
                    vstd::arithmetic::div_mod::lemma_div_by_multiple(500, 1000000);
                }
                lemma_cube_range(0, 1000, 2000 - 2 * c2);
                vstd::arithmetic::div_mod::lemma_div_is_ordered(
                    (2000 - 2 * c2) * (2000 - 2 * c2) * (2000 - 2 * c2),
                    1000000000,
                    2000000,
                );
                assert(1000000000int / 2000000 == 500) by {
                    vstd::arithmetic::div_mod::lemma_div_by_multiple(500, 2000000);
                }
            }
        },
    }
}

/// A zoom animation triggered by one click event: zoom-in, hold and
/// zoom-out phases around the click position.
#[derive(Debug, Clone, Copy, PartialEq, Eq, Structural)]
pub struct ZoomKeyframe {
    /// Start of the animation in milliseconds.
    pub start_ms: u64,
    /// End of the animation: start plus the three phase durations.
    pub end_ms: u64,
    /// Zoom centre X in pixels (screen coordinates).
    pub center_x: i64,
    /// Zoom centre Y in pixels (screen coordinates).
    pub center_y: i64,
    /// Peak zoom factor in thousandths.
    pub peak_zoom: u64,
    pub zoom_in_ms: u64,
    pub hold_ms: u64,
    pub zoom_out_ms: u64,
    pub easing: EasingType,
}

/// The crop viewport of one output frame. Geometry is in thousandths of a
/// source pixel, the zoom factor in thousandths.
#[derive(Debug, Clone, Copy, PartialEq, Eq, Structural)]
pub struct FrameViewport {
    pub x: u64,
    pub y: u64,
    pub width: u64,
    pub height: u64,
    /// Zoom factor in thousandths; 1000 is no zoom.
    pub zoom: u64,
    pub center_x: u64,
    pub center_y: u64,
}

/// Size bounds under which the keyframe arithmetic stays inside 64 bits,
/// together with the defining phase equation of `end_ms`.
pub open spec fn kf_wf(kf: ZoomKeyframe) -> bool {
    &&& kf.end_ms == kf.start_ms + kf.zoom_in_ms + kf.hold_ms + kf.zoom_out_ms
    &&& kf.start_ms <= 1000000000000000
    &&& kf.zoom_in_ms <= 1000000000000
    &&& kf.hold_ms <= 1000000000000
    &&& kf.zoom_out_ms <= 1000000000000
    &&& kf.peak_zoom <= 1000000
    &&& -1000000000000 <= kf.center_x <= 1000000000000
    &&& -1000000000000 <= kf.center_y <= 1000000000000
}

/// The zoom factor of `kf` at a time `t` inside `[start_ms, end_ms]`, in
/// thousandths. A zoom-out phase of length zero has no well-defined
/// progress and contributes the neutral factor.
pub open spec fn spec_zoom_factor(kf: ZoomKeyframe, t: u64) -> int {
    let elapsed = t - kf.start_ms;
    if elapsed < kf.zoom_in_ms {
        1000 + (kf.peak_zoom - 1000) * spec_ease(elapsed * 1000 / kf.zoom_in_ms as int, kf.easing)
            / 1000
    } else if elapsed < kf.zoom_in_ms + kf.hold_ms {
        kf.peak_zoom as int
    } else if kf.zoom_out_ms == 0 {
        1000
    } else {
        kf.peak_zoom - (kf.peak_zoom - 1000) * spec_ease(
            (elapsed - kf.zoom_in_ms - kf.hold_ms) * 1000 / kf.zoom_out_ms as int,
            kf.easing,
        ) / 1000
    }
}

/// Whether `kf` is active at time `t`.
pub open spec fn kf_active(kf: ZoomKeyframe, t: u64) -> bool {
    kf.start_ms <= t <= kf.end_ms
}

/// The zoom factor `kf` contributes to the scan at time `t`: its phase
/// factor while active, the neutral factor otherwise. A keyframe whose
/// peak is below the neutral factor can never win the scan and is treated
/// as neutral outright.
pub open spec fn spec_effective_zoom(kf: ZoomKeyframe, t: u64) -> int {
    if kf_active(kf, t) && kf.peak_zoom >= 1000 {
        spec_zoom_factor(kf, t)
    } else {
        1000
    }
}

/// The running state of the keyframe scan: chosen zoom factor in
/// thousandths and zoom centre in thousandths of a pixel.
pub ghost struct ZoomChoice {
    pub zoom: int,
    pub cx: int,
    pub cy: int,
}

/// Fold the keyframes over the scan state: a keyframe takes over only
/// with a strictly greater factor, so the first keyframe to reach the
/// maximum keeps the centre.
pub open spec fn spec_scan_zoom(kfs: Seq<ZoomKeyframe>, t: u64, acc: ZoomChoice) -> ZoomChoice
    decreases kfs.len(),
{
    if kfs.len() == 0 {
        acc
    } else {
        let f = spec_effective_zoom(kfs[0], t);
        let acc2 = if f > acc.zoom {
            ZoomChoice { zoom: f, cx: kfs[0].center_x * 1000, cy: kfs[0].center_y * 1000 }
        } else {
            acc
        };
        spec_scan_zoom(kfs.drop_first(), t, acc2)
    }
}

/// The scan state before any keyframe is seen: no zoom, centred on the
/// middle of the source.
pub open spec fn spec_initial_choice(source_width: u32, source_height: u32) -> ZoomChoice {
    ZoomChoice { zoom: 1000, cx: source_width * 500, cy: source_height * 500 }
}

/// The zoom factor and centre chosen among all keyframes at time `t`.
pub open spec fn spec_zoom_choice(
    kfs: Seq<ZoomKeyframe>,
    t: u64,
    source_width: u32,
    source_height: u32,
) -> ZoomChoice {
    spec_scan_zoom(kfs, t, spec_initial_choice(source_width, source_height))
}

/// An active keyframe's factor lies between the neutral factor and its
/// peak.
pub proof fn lemma_factor_bounds(kf: ZoomKeyframe, t: u64)
    requires
        kf_wf(kf),
        kf_active(kf, t),
        kf.peak_zoom >= 1000,
    ensures
        1000 <= spec_zoom_factor(kf, t) <= kf.peak_zoom,
{
    let p = kf.peak_zoom as int;
    let elapsed = t - kf.start_ms;
    if elapsed < kf.zoom_in_ms {
        let e = spec_ease(elapsed * 1000 / kf.zoom_in_ms as int, kf.easing);
        lemma_ease_bounds(elapsed * 1000 / kf.zoom_in_ms as int, kf.easing);
        vstd::arithmetic::mul::lemma_mul_inequality(e, 1000, p - 1000);
        vstd::arithmetic::div_mod::lemma_div_is_ordered((p - 1000) * e, (p - 1000) * 1000, 1000);
        vstd::arithmetic::div_mod::lemma_div_by_multiple(p - 1000, 1000);
        vstd::arithmetic::mul::lemma_mul_nonnegative(p - 1000, e);
        vstd::arithmetic::div_mod::lemma_div_pos_is_pos((p - 1000) * e, 1000);
        assert(e * (p - 1000) == (p - 1000) * e) by (nonlinear_arith);
    } else if elapsed < kf.zoom_in_ms + kf.hold_ms {
    } else if kf.zoom_out_ms == 0 {
    } else {
        let e = spec_ease(
            (elapsed - kf.zoom_in_ms - kf.hold_ms) * 1000 / kf.zoom_out_ms as int,
            kf.easing,
        );
        lemma_ease_bounds(
            (elapsed - kf.zoom_in_ms - kf.hold_ms) * 1000 / kf.zoom_out_ms as int,
            kf.easing,
        );
        vstd::arithmetic::mul::lemma_mul_inequality(e, 1000, p - 1000);
        vstd::arithmetic::div_mod::lemma_div_is_ordered((p - 1000) * e, (p - 1000) * 1000, 1000);
        vstd::arithmetic::div_mod::lemma_div_by_multiple(p - 1000, 1000);
        vstd::arithmetic::mul::lemma_mul_nonnegative(p - 1000, e);
        vstd::arithmetic::div_mod::lemma_div_pos_is_pos((p - 1000) * e, 1000);
        assert(e * (p - 1000) == (p - 1000) * e) by (nonlinear_arith);
    }
}

/// When no keyframe is active the scan leaves its state untouched.
pub proof fn lemma_scan_inactive(kfs: Seq<ZoomKeyframe>, t: u64, acc: ZoomChoice)
    requires
        acc.zoom >= 1000,
        forall|i: int| 0 <= i < kfs.len() ==> !kf_active(#[trigger] kfs[i], t),
    ensures
        spec_scan_zoom(kfs, t, acc) == acc,
    decreases kfs.len(),
{
    if kfs.len() > 0 {
        assert(!kf_active(kfs[0], t));
        assert(forall|i: int|
            0 <= i < kfs.drop_first().len() ==> !kf_active(#[trigger] kfs.drop_first()[i], t));
        lemma_scan_inactive(kfs.drop_first(), t, acc);
    }
}

/// Evaluate the easing curve at `t` thousandths of normalized time.
pub fn apply_easing(t: u64, easing: &EasingType) -> (r: u64)
    ensures
        r == spec_ease(t as int, *easing),
        r <= 1000,
{
    let c: u64 = if t > 1000 {
        1000
    } else {
        t
    };
    proof {
        lemma_ease_bounds(t as int, *easing);
        assert(1000000000int / 1000000 == 1000) by {
            vstd::arithmetic::div_mod::lemma_div_by_multiple(1000, 1000000);
        }
        assert(1000000000int / 2000000 == 500) by {
            vstd::arithmetic::div_mod::lemma_div_by_multiple(500, 2000000);
        }
    }
    match easing {
        EasingType::Linear => c,
        EasingType::EaseIn => {
            proof {
                lemma_cube_range(0, 1000, c as int);
            }
            c * c * c / 1000000
        },
        EasingType::EaseOut => {
            proof {
                lemma_cube_range(0, 1000, 1000 - c as int);
                vstd::arithmetic::div_mod::lemma_div_is_ordered(
                    (1000 - c as int) * (1000 - c as int) * (1000 - c as int),
                    1000000000,
                    1000000,
                );
            }
            1000 - (1000 - c) * (1000 - c) * (1000 - c) / 1000000
        },
        EasingType::EaseInOut => {
            if c < 500 {
                proof {
                    lemma_cube_range(0, 500, c as int);
                }
                4 * (c * c * c) / 1000000
            } else {
                proof {
                    lemma_cube_range(0, 1000, 2000 - 2 * c as int);
                    vstd::arithmetic::div_mod::lemma_div_is_ordered(
                        (2000 - 2 * c as int) * (2000 - 2 * c as int) * (2000 - 2 * c as int),
                        1000000000,
                        2000000,
                    );
                }
                1000 - (2000 - 2 * c) * (2000 - 2 * c) * (2000 - 2 * c) / 2000000
            }
        },
    }
}

/// Size bounds on a zoom configuration under which keyframe arithmetic
/// stays inside 64 bits.
pub open spec fn config_wf(c: ZoomConfig) -> bool {
    &&& c.zoom_in_duration_ms <= 1000000000000
    &&& c.hold_duration_ms <= 1000000000000
    &&& c.zoom_out_duration_ms <= 1000000000000
    &&& c.zoom_level <= 1000000
}

/// Size bounds on an event's timestamp and coordinates under which
/// keyframe arithmetic stays inside 64 bits.
pub open spec fn event_wf(e: MouseEvent) -> bool {
    &&& e.timestamp_ms <= 1000000000000000
    &&& -1000000000000 <= e.x <= 1000000000000
    &&& -1000000000000 <= e.y <= 1000000000000
}

/// The keyframe that one click event gives rise to under `c`.
pub open spec fn spec_keyframe(e: MouseEvent, c: ZoomConfig) -> ZoomKeyframe {
    ZoomKeyframe {
        start_ms: e.timestamp_ms,
        end_ms: (e.timestamp_ms + c.zoom_in_duration_ms + c.hold_duration_ms
            + c.zoom_out_duration_ms) as u64,
        center_x: e.x,
        center_y: e.y,
        peak_zoom: c.zoom_level,
        zoom_in_ms: c.zoom_in_duration_ms,
        hold_ms: c.hold_duration_ms,
        zoom_out_ms: c.zoom_out_duration_ms,
        easing: c.easing,
    }
}

/// Map every click event to one keyframe, in event order. A disabled
/// configuration, like an empty click list, yields no keyframes.
pub fn generate_zoom_keyframes(click_events: &Vec<MouseEvent>, config: &ZoomConfig) -> (r: Vec<
    ZoomKeyframe,
>)
    requires
        config.enabled ==> config_wf(*config),
        config.enabled ==> forall|i: int|
            0 <= i < click_events@.len() ==> event_wf(#[trigger] click_events@[i]),
    ensures
        !config.enabled ==> r@.len() == 0,
        config.enabled ==> r@.len() == click_events@.len(),
        config.enabled ==> forall|i: int|
            0 <= i < r@.len() ==> r@[i] == spec_keyframe(click_events@[i], *config),
        forall|i: int| 0 <= i < r@.len() ==> kf_wf(#[trigger] r@[i]),
{
    let mut r: Vec<ZoomKeyframe> = Vec::new();
    if !config.enabled {
        return r;
    }
    let total_duration = config.zoom_in_duration_ms + config.hold_duration_ms
        + config.zoom_out_duration_ms;
    let n = click_events.len();
    for i in 0..n
        invariant
            n == click_events@.len(),
            config_wf(*config),
            forall|j: int| 0 <= j < n ==> event_wf(#[trigger] click_events@[j]),
            total_duration == config.zoom_in_duration_ms + config.hold_duration_ms
                + config.zoom_out_duration_ms,
            r@.len() == i,
            forall|j: int| 0 <= j < i ==> r@[j] == spec_keyframe(click_events@[j], *config),
            forall|j: int| 0 <= j < i ==> kf_wf(#[trigger] r@[j]),
    {
        let e = click_events[i];
        r.push(
            ZoomKeyframe {
                start_ms: e.timestamp_ms,
                end_ms: e.timestamp_ms + total_duration,
                center_x: e.x,
                center_y: e.y,
                peak_zoom: config.zoom_level,
                zoom_in_ms: config.zoom_in_duration_ms,
                hold_ms: config.hold_duration_ms,
                zoom_out_ms: config.zoom_out_duration_ms,
                easing: config.easing,
            },
        );
    }
    r
}

/// `v` confined to `[lo, hi]`; when the interval is empty, `lo` wins.
pub open spec fn spec_clamp(v: int, lo: int, hi: int) -> int {
    if v < lo {
        lo
    } else if v > hi {
        hi
    } else {
        v
    }
}

/// The viewport owed at time `t`: the scan's zoom factor and centre,
/// the crop sized as the source divided by the factor, and the centre
/// clamped so the crop never leaves the source.
pub open spec fn spec_viewport(
    kfs: Seq<ZoomKeyframe>,
    t: u64,
    source_width: u32,
    source_height: u32,
) -> FrameViewport {
    let choice = spec_zoom_choice(kfs, t, source_width, source_height);
    let crop_w = source_width * 1000000 / choice.zoom;
    let crop_h = source_height * 1000000 / choice.zoom;
    let sw = source_width * 1000;
    let sh = source_height * 1000;
    let cx = spec_clamp(choice.cx, crop_w / 2, sw - (crop_w - crop_w / 2));
    let cy = spec_clamp(choice.cy, crop_h / 2, sh - (crop_h - crop_h / 2));
    FrameViewport {
        x: (cx - crop_w / 2) as u64,
        y: (cy - crop_h / 2) as u64,
        width: crop_w as u64,
        height: crop_h as u64,
        zoom: choice.zoom as u64,
        center_x: cx as u64,
        center_y: cy as u64,
    }
}

/// The crop viewport at time `time_ms`: among the active keyframes the
/// one with the strictly greatest zoom factor decides factor and centre;
/// the crop is the source size divided by the factor, its centre clamped
/// so the rectangle never leaves the source.
pub fn compute_zoom_at_time(
    time_ms: u64,
    keyframes: &Vec<ZoomKeyframe>,
    source_width: u32,
    source_height: u32,
) -> (v: FrameViewport)
    requires
        forall|i: int| 0 <= i < keyframes@.len() ==> kf_wf(#[trigger] keyframes@[i]),
    ensures
        ({
            let choice = spec_zoom_choice(keyframes@, time_ms, source_width, source_height);
            let sw = source_width * 1000;
            let sh = source_height * 1000;
            &&& v.zoom == choice.zoom
            &&& 1000 <= v.zoom <= 1000000
            &&& v.width == source_width * 1000000 / v.zoom as int
            &&& v.height == source_height * 1000000 / v.zoom as int
            &&& v.center_x == spec_clamp(choice.cx, v.width as int / 2, sw - (v.width - v.width
                / 2))
            &&& v.center_y == spec_clamp(choice.cy, v.height as int / 2, sh - (v.height - v.height
                / 2))
            &&& v.x == v.center_x - v.width / 2
            &&& v.y == v.center_y - v.height / 2
            &&& v.x + v.width <= sw
            &&& v.y + v.height <= sh
        }),
        v == spec_viewport(keyframes@, time_ms, source_width, source_height),
        (forall|i: int| 0 <= i < keyframes@.len() ==> !kf_active(#[trigger] keyframes@[i], time_ms))
            ==> v.zoom == 1000 && v.width == source_width * 1000 && v.height == source_height
            * 1000,
{
    let mut max_zoom: u64 = 1000;
    let mut cx: i64 = (source_width as i64) * 500;
    let mut cy: i64 = (source_height as i64) * 500;
    let ghost init = spec_initial_choice(source_width, source_height);
    proof {
        assert(keyframes@.skip(0) =~= keyframes@);
    }
    let n = keyframes.len();
    for idx in 0..n
        invariant
            n == keyframes@.len(),
            forall|i: int| 0 <= i < n ==> kf_wf(#[trigger] keyframes@[i]),
            1000 <= max_zoom <= 1000000,
            -1000000000000000 <= cx <= 1000000000000000,
            -1000000000000000 <= cy <= 1000000000000000,
            init == spec_initial_choice(source_width, source_height),
            spec_scan_zoom(keyframes@, time_ms, init) == spec_scan_zoom(
                keyframes@.skip(idx as int),
                time_ms,
                ZoomChoice { zoom: max_zoom as int, cx: cx as int, cy: cy as int },
            ),
    {
        let kf = keyframes[idx];
        proof {
            assert(keyframes@.skip(idx as int).drop_first() =~= keyframes@.skip(idx + 1));
            assert(keyframes@.skip(idx as int)[0] == keyframes@[idx as int]);
            if kf_active(kf, time_ms) && kf.peak_zoom >= 1000 {
                lemma_factor_bounds(kf, time_ms);
            }
        }
        let factor: u64 = if time_ms < kf.start_ms || time_ms > kf.end_ms || kf.peak_zoom < 1000 {
            1000
        } else {
            let elapsed = time_ms - kf.start_ms;
            if elapsed < kf.zoom_in_ms {
                let eased = apply_easing(elapsed * 1000 / kf.zoom_in_ms, &kf.easing);
                proof {
                    vstd::arithmetic::mul::lemma_mul_upper_bound(
                        kf.peak_zoom - 1000,
                        999000,
                        eased as int,
                        1000,
                    );
                }
                1000 + (kf.peak_zoom - 1000) * eased / 1000
            } else if elapsed < kf.zoom_in_ms + kf.hold_ms {
                kf.peak_zoom
            } else if kf.zoom_out_ms == 0 {
                1000
            } else {
                let out_elapsed = elapsed - kf.zoom_in_ms - kf.hold_ms;
                let eased = apply_easing(out_elapsed * 1000 / kf.zoom_out_ms, &kf.easing);
                proof {
                    vstd::arithmetic::mul::lemma_mul_upper_bound(
                        kf.peak_zoom - 1000,
                        999000,
                        eased as int,
                        1000,
                    );
                    vstd::arithmetic::mul::lemma_mul_inequality(
                        eased as int,
                        1000,
                        kf.peak_zoom - 1000,
                    );
                    assert((eased as int) * (kf.peak_zoom - 1000) == (kf.peak_zoom - 1000) * (
                    eased as int) && 1000 * (kf.peak_zoom - 1000) == (kf.peak_zoom - 1000)
                        * 1000) by (nonlinear_arith);
                    vstd::arithmetic::div_mod::lemma_div_is_ordered(
                        (kf.peak_zoom - 1000) * eased,
                        (kf.peak_zoom - 1000) * 1000,
                        1000,
                    );
                    vstd::arithmetic::div_mod::lemma_div_by_multiple(kf.peak_zoom - 1000, 1000);
                    vstd::arithmetic::mul::lemma_mul_nonnegative(
                        kf.peak_zoom - 1000,
                        eased as int,
                    );
                    vstd::arithmetic::div_mod::lemma_div_pos_is_pos(
                        (kf.peak_zoom - 1000) * eased,
                        1000,
                    );
                    assert((eased as int) * (kf.peak_zoom - 1000) == (kf.peak_zoom - 1000) * (
                    eased as int)) by (nonlinear_arith);
                }
                kf.peak_zoom - (kf.peak_zoom - 1000) * eased / 1000
            }
        };
        if factor > max_zoom {
            max_zoom = factor;
            cx = kf.center_x * 1000;
            cy = kf.center_y * 1000;
        }
    }
    proof {
        assert(keyframes@.skip(n as int) =~= Seq::<ZoomKeyframe>::empty());
        if forall|i: int|
            0 <= i < keyframes@.len() ==> !kf_active(#[trigger] keyframes@[i], time_ms) {
            lemma_scan_inactive(keyframes@, time_ms, init);
        }
    }
    let sw: u64 = (source_width as u64) * 1000;
    let sh: u64 = (source_height as u64) * 1000;
    proof {
        vstd::arithmetic::div_mod::lemma_div_is_ordered_by_denominator(
            source_width * 1000000,
            1000,
            max_zoom as int,
        );
        vstd::arithmetic::div_mod::lemma_div_is_ordered_by_denominator(
            source_height * 1000000,
            1000,
            max_zoom as int,
        );
        vstd::arithmetic::div_mod::lemma_div_by_multiple(source_width * 1000, 1000);
        vstd::arithmetic::div_mod::lemma_div_by_multiple(source_height * 1000, 1000);
        vstd::arithmetic::div_mod::lemma_div_pos_is_pos(source_width * 1000000, max_zoom as int);
        vstd::arithmetic::div_mod::lemma_div_pos_is_pos(source_height * 1000000, max_zoom as int);
    }
    let crop_w: u64 = (source_width as u64) * 1000000 / max_zoom;
    let crop_h: u64 = (source_height as u64) * 1000000 / max_zoom;
    let half_w: u64 = crop_w / 2;
    let half_h: u64 = crop_h / 2;
    let hi_x: u64 = sw - (crop_w - half_w);
    let hi_y: u64 = sh - (crop_h - half_h);
    let ccx: i64 = if cx < half_w as i64 {
        half_w as i64
    } else if cx > hi_x as i64 {
        hi_x as i64
    } else {
        cx
    };
    let ccy: i64 = if cy < half_h as i64 {
        half_h as i64
    } else if cy > hi_y as i64 {
        hi_y as i64
    } else {
        cy
    };
    FrameViewport {
        x: (ccx as u64) - half_w,
        y: (ccy as u64) - half_h,
        width: crop_w,
        height: crop_h,
        zoom: max_zoom,
        center_x: ccx as u64,
        center_y: ccy as u64,
    }
}

} // verus!
