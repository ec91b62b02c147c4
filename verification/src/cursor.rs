//! The cursor engine: smoothed position, visibility and click-highlight
//! animation for any output timestamp, computed from the raw event log.
//!
//! Positions are whole pixels; highlight progress is in thousandths of
//! the fixed 400 ms highlight window.

use vstd::prelude::*;
use crate::effects::CursorConfig;
use crate::events::{EventType, MouseEvent};

verus! {

/// Cursor overlay state at one timestamp.
#[derive(Debug, Clone, Copy, PartialEq)]
pub struct CursorState {
    pub x: i64,
    pub y: i64,
    pub visible: bool,
    pub click_highlight: Option<ClickHighlight>,
}

/// A running click-highlight animation.
#[derive(Debug, Clone, Copy, PartialEq)]
pub struct ClickHighlight {
    /// Animation progress in thousandths; always below 1000.
    pub progress: u64,
    pub x: i64,
    pub y: i64,
}

/// The event log is ordered by timestamp, non-decreasing.
pub open spec fn events_sorted(s: Seq<MouseEvent>) -> bool {
    forall|i: int, j: int|
        0 <= i < j < s.len() ==> s[i].timestamp_ms <= s[j].timestamp_ms
}

/// Coordinate and length bounds under which the smoothing sums stay
/// inside 64 bits.
pub open spec fn cursor_event_wf(e: MouseEvent) -> bool {
    -1000000000 <= e.x <= 1000000000 && -1000000000 <= e.y <= 1000000000
}

/// The index of the event at or immediately before `t`: the largest
/// index whose timestamp is at most `t`, or 0 when every event lies
/// after `t`.
pub open spec fn spec_locate(s: Seq<MouseEvent>, t: u64) -> int
    decreases s.len(),
{
    if s.len() <= 1 {
        0
    } else if s.last().timestamp_ms <= t {
        s.len() - 1
    } else {
        spec_locate(s.drop_last(), t)
    }
}

/// Time distance between an event and the reference timestamp `ct`.
pub open spec fn spec_dt(e: MouseEvent, ct: u64) -> int {
    if e.timestamp_ms >= ct {
        e.timestamp_ms - ct
    } else {
        ct - e.timestamp_ms
    }
}

/// The smoothing weight of an event: quadratic falloff with time
/// distance, zero outside the window.
pub open spec fn spec_weight(e: MouseEvent, ct: u64, window: int) -> int {
    if spec_dt(e, ct) <= window {
        (window - spec_dt(e, ct)) * (window - spec_dt(e, ct))
    } else {
        0
    }
}

/// Sum of the smoothing weights of `s`.
pub open spec fn spec_weight_sum(s: Seq<MouseEvent>, ct: u64, window: int) -> int
    decreases s.len(),
{
    if s.len() == 0 {
        0
    } else {
        spec_weight_sum(s.drop_last(), ct, window) + spec_weight(s.last(), ct, window)
    }
}

/// Weighted sum of the X coordinates of `s`.
pub open spec fn spec_weighted_x(s: Seq<MouseEvent>, ct: u64, window: int) -> int
    decreases s.len(),
{
    if s.len() == 0 {
        0
    } else {
        spec_weighted_x(s.drop_last(), ct, window) + s.last().x * spec_weight(s.last(), ct, window)
    }
}

/// Weighted sum of the Y coordinates of `s`.
pub open spec fn spec_weighted_y(s: Seq<MouseEvent>, ct: u64, window: int) -> int
    decreases s.len(),
{
    if s.len() == 0 {
        0
    } else {
        spec_weighted_y(s.drop_last(), ct, window) + s.last().y * spec_weight(s.last(), ct, window)
    }
}

/// Integer division rounding towards zero: the integer counterpart of
/// the real quotient of the weighted average.
pub open spec fn div_towards_zero(a: int, b: int) -> int {
    if a >= 0 {
        a / b
    } else {
        -((-a) / b)
    }
}

/// The smoothed X position: the weighted average over the window centred
/// on the located event's timestamp, or that event's own X when no
/// weight remains.
pub open spec fn spec_smoothed_x(s: Seq<MouseEvent>, center_idx: int, window: int) -> int {
    let ct = s[center_idx].timestamp_ms;
    if spec_weight_sum(s, ct, window) > 0 {
        div_towards_zero(spec_weighted_x(s, ct, window), spec_weight_sum(s, ct, window))
    } else {
        s[center_idx].x as int
    }
}

/// The smoothed Y position, as `spec_smoothed_x`.
pub open spec fn spec_smoothed_y(s: Seq<MouseEvent>, center_idx: int, window: int) -> int {
    let ct = s[center_idx].timestamp_ms;
    if spec_weight_sum(s, ct, window) > 0 {
        div_towards_zero(spec_weighted_y(s, ct, window), spec_weight_sum(s, ct, window))
    } else {
        s[center_idx].y as int
    }
}

/// Whether `e` counts as cursor activity: clicks and moves do, scrolls
/// do not.
pub open spec fn is_activity(e: MouseEvent) -> bool {
    e.event_type == EventType::Click || e.event_type == EventType::Move
}

/// The largest index at most `i` holding an activity event, or -1.
pub open spec fn spec_last_active(s: Seq<MouseEvent>, i: int) -> int
    decreases i + 1,
{
    if i < 0 {
        -1
    } else if is_activity(s[i]) {
        i
    } else {
        spec_last_active(s, i - 1)
    }
}

/// How long before `t` the timestamp `ts` lies; an event not yet due
/// counts as current.
pub open spec fn spec_age(t: u64, ts: u64) -> int {
    if ts <= t {
        t - ts
    } else {
        0
    }
}

/// The cursor is visible at `t` iff some activity event at or before the
/// located index is younger than the auto-hide delay.
pub open spec fn spec_visible(s: Seq<MouseEvent>, idx: int, t: u64, hide_ms: u64) -> bool {
    let j = spec_last_active(s, idx);
    j >= 0 && spec_age(t, s[j].timestamp_ms) < hide_ms
}

/// The largest index at most `i` holding a click younger than the fixed
/// 400 ms highlight window at time `t`, or -1.
pub open spec fn spec_recent_click(s: Seq<MouseEvent>, t: u64, i: int) -> int
    decreases i + 1,
{
    if i < 0 {
        -1
    } else if s[i].event_type == EventType::Click && s[i].timestamp_ms <= t && t
        - s[i].timestamp_ms < 400 {
        i
    } else {
        spec_recent_click(s, t, i - 1)
    }
}

/// The click highlight at `t`: the most recent click within the 400 ms
/// window, with progress in thousandths of that window.
pub open spec fn spec_highlight(s: Seq<MouseEvent>, t: u64) -> Option<ClickHighlight> {
    let j = spec_recent_click(s, t, s.len() - 1);
    if j >= 0 {
        Some(
            ClickHighlight {
                progress: ((t - s[j].timestamp_ms) * 1000 / 400) as u64,
                x: s[j].x,
                y: s[j].y,
            },
        )
    } else {
        None
    }
}

/// Locate the event at or immediately before `t`; index 0 stands in when
/// every event lies after `t`.
fn locate_event_index(events: &Vec<MouseEvent>, t: u64) -> (idx: usize)
    requires
        events@.len() > 0,
    ensures
        idx < events@.len(),
        idx == spec_locate(events@, t),
{
    let mut i: usize = events.len();
    proof {
        assert(events@.take(events@.len() as int) =~= events@);
    }
    loop
        invariant
            0 <= i <= events@.len(),
            events@.len() > 0,
            spec_locate(events@, t) == spec_locate(events@.take(i as int), t),
        ensures
            i <= events@.len(),
            spec_locate(events@, t) == if i == 0 {
                0int
            } else {
                i - 1
            },
        decreases i,
    {
        if i == 0 {
            break;
        }
        if events[i - 1].timestamp_ms <= t {
            proof {
                assert(events@.take(i as int).last() == events@[i - 1]);
            }
            break;
        }
        proof {
            assert(events@.take(i as int).drop_last() =~= events@.take(i - 1));
        }
        i = i - 1;
    }
    if i == 0 {
        0
    } else {
        i - 1
    }
}

/// The smoothed cursor position around the located event: a quadratic
/// falloff weighted average of all events within the window.
pub fn smooth_position(events: &Vec<MouseEvent>, center_idx: usize, window_ms: u64) -> (p: (i64, i64))
    requires
        center_idx < events@.len(),
        events@.len() <= 100000,
        window_ms <= 100,
        forall|i: int| 0 <= i < events@.len() ==> cursor_event_wf(#[trigger] events@[i]),
    ensures
        p.0 == spec_smoothed_x(events@, center_idx as int, window_ms as int),
        p.1 == spec_smoothed_y(events@, center_idx as int, window_ms as int),
{
    let center_time = events[center_idx].timestamp_ms;
    let mut sum_x: i64 = 0;
    let mut sum_y: i64 = 0;
    let mut weight_sum: u64 = 0;
    let n = events.len();
    for i in 0..n
        invariant
            n == events@.len(),
            n <= 100000,
            window_ms <= 100,
            center_time == events@[center_idx as int].timestamp_ms,
            forall|j: int| 0 <= j < n ==> cursor_event_wf(#[trigger] events@[j]),
            sum_x == spec_weighted_x(events@.take(i as int), center_time, window_ms as int),
            sum_y == spec_weighted_y(events@.take(i as int), center_time, window_ms as int),
            weight_sum == spec_weight_sum(events@.take(i as int), center_time, window_ms as int),
            -10000000000000 * i <= sum_x <= 10000000000000 * i,
            -10000000000000 * i <= sum_y <= 10000000000000 * i,
            weight_sum <= 10000 * i,
    {
        let e = events[i];
        proof {
            let s = events@;
            assert(s.take(i + 1).drop_last() =~= s.take(i as int));
            assert(s.take(i + 1).last() == s[i as int]);
        }
        let dt: u64 = if e.timestamp_ms > center_time {
            e.timestamp_ms - center_time
        } else {
            center_time - e.timestamp_ms
        };
        if dt <= window_ms {
            let wd: u64 = window_ms - dt;
            proof {
                assert(wd * wd <= 10000) by (nonlinear_arith)
                    requires
                        0 <= wd <= 100,
                ;
            }
            let w: u64 = wd * wd;
            proof {
                assert(w == spec_weight(events@[i as int], center_time, window_ms as int));
                assert(-10000000000000 <= e.x * w <= 10000000000000 && -10000000000000 <= e.y * w
                    <= 10000000000000) by (nonlinear_arith)
                    requires
                        -1000000000 <= e.x <= 1000000000,
                        0 <= w <= 10000,
                        -1000000000 <= e.y <= 1000000000,
                ;
            }
            sum_x = sum_x + e.x * (w as i64);
            sum_y = sum_y + e.y * (w as i64);
            weight_sum = weight_sum + w;
        }
    }
    proof {
        assert(events@.take(n as int) =~= events@);
    }
    if weight_sum > 0 {
        proof {
            let ax: int = if sum_x >= 0 {
                sum_x as int
            } else {
                -(sum_x as int)
            };
            let ay: int = if sum_y >= 0 {
                sum_y as int
            } else {
                -(sum_y as int)
            };
            vstd::arithmetic::div_mod::lemma_div_nonincreasing(ax, weight_sum as int);
            vstd::arithmetic::div_mod::lemma_div_nonincreasing(ay, weight_sum as int);
            vstd::arithmetic::div_mod::lemma_div_pos_is_pos(ax, weight_sum as int);
            vstd::arithmetic::div_mod::lemma_div_pos_is_pos(ay, weight_sum as int);
        }
        let sx: i64 = if sum_x >= 0 {
            ((sum_x as u64) / weight_sum) as i64
        } else {
            -((((-sum_x) as u64) / weight_sum) as i64)
        };
        let sy: i64 = if sum_y >= 0 {
            ((sum_y as u64) / weight_sum) as i64
        } else {
            -((((-sum_y) as u64) / weight_sum) as i64)
        };
        (sx, sy)
    } else {
        let c = events[center_idx];
        (c.x, c.y)
    }
}

/// The last activity event at or before `idx`, compared against the
/// auto-hide delay.
pub fn check_cursor_visible(events: &Vec<MouseEvent>, idx: usize, time_ms: u64, auto_hide_after_ms: u64)
    -> (visible: bool)
    requires
        idx < events@.len(),
    ensures
        visible == spec_visible(events@, idx as int, time_ms, auto_hide_after_ms),
{
    let n = events.len();
    let mut i: usize = idx + 1;
    loop
        invariant
            n == events@.len(),
            0 <= i <= idx + 1 < events@.len() + 1,
            spec_last_active(events@, idx as int) == spec_last_active(events@, i - 1),
        ensures
            ({
                let j = spec_last_active(events@, idx as int);
                (i == 0 && j == -1) || (i >= 1 && j == i - 1 && is_activity(events@[j]))
            }),
        decreases i,
    {
        if i == 0 {
            break;
        }
        let e = &events[i - 1];
        if matches!(e.event_type, EventType::Click | EventType::Move) {
            break;
        }
        i = i - 1;
    }
    if i == 0 {
        false
    } else {
        let ts = events[i - 1].timestamp_ms;
        let age: u64 = if ts <= time_ms {
            time_ms - ts
        } else {
            0
        };
        age < auto_hide_after_ms
    }
}

/// The most recent click within the fixed 400 ms highlight window.
pub fn get_click_highlight(events: &Vec<MouseEvent>, time_ms: u64) -> (h: Option<ClickHighlight>)
    ensures
        h == spec_highlight(events@, time_ms),
{
    let n = events.len();
    let mut i: usize = n;
    loop
        invariant
            0 <= i <= n == events@.len(),
            spec_recent_click(events@, time_ms, n - 1) == spec_recent_click(
                events@,
                time_ms,
                i - 1,
            ),
        ensures
            i <= n == events@.len(),
            ({
                let j = spec_recent_click(events@, time_ms, n - 1);
                (i == 0 && j == -1) || (i >= 1 && j == i - 1 && events@[i - 1].event_type
                    == EventType::Click && events@[i - 1].timestamp_ms <= time_ms && time_ms
                    - events@[i - 1].timestamp_ms < 400)
            }),
        decreases i,
    {
        if i == 0 {
            break;
        }
        let e = &events[i - 1];
        if matches!(e.event_type, EventType::Click) && e.timestamp_ms <= time_ms && time_ms
            - e.timestamp_ms < 400 {
            break;
        }
        i = i - 1;
    }
    if i == 0 {
        None
    } else {
        let click = &events[i - 1];
        let elapsed = time_ms - click.timestamp_ms;
        Some(ClickHighlight { progress: elapsed * 1000 / 400, x: click.x, y: click.y })
    }
}

/// The cursor overlay state at `time_ms`: smoothed position, auto-hide
/// visibility and, when enabled, the click-highlight animation. An empty
/// log yields an invisible cursor at the origin.
pub fn get_cursor_at_time(time_ms: u64, events: &Vec<MouseEvent>, config: &CursorConfig) -> (s:
    CursorState)
    requires
        events_sorted(events@),
        config.smoothing <= 1000,
        events@.len() <= 100000,
        forall|i: int| 0 <= i < events@.len() ==> cursor_event_wf(#[trigger] events@[i]),
    ensures
        events@.len() == 0 ==> s == (CursorState {
            x: 0,
            y: 0,
            visible: false,
            click_highlight: None::<ClickHighlight>,
        }),
        events@.len() > 0 ==> ({
            let idx = spec_locate(events@, time_ms);
            let window = config.smoothing as int / 10;
            &&& (config.smoothing > 10 ==> s.x == spec_smoothed_x(events@, idx, window) && s.y
                == spec_smoothed_y(events@, idx, window))
            &&& (config.smoothing <= 10 ==> s.x == events@[idx].x && s.y == events@[idx].y)
            &&& s.visible == spec_visible(events@, idx, time_ms, config.auto_hide_after_ms)
            &&& s.click_highlight == (if config.highlight_clicks {
                spec_highlight(events@, time_ms)
            } else {
                None::<ClickHighlight>
            })
        }),
{
    if events.len() == 0 {
        return CursorState { x: 0, y: 0, visible: false, click_highlight: None };
    }
    let idx = locate_event_index(events, time_ms);
    let nearest = &events[idx];
    let smoothing_window_ms = config.smoothing / 10;
    let (smooth_x, smooth_y): (i64, i64) = if config.smoothing > 10 {
        smooth_position(events, idx, smoothing_window_ms)
    } else {
        (nearest.x, nearest.y)
    };
    let visible = check_cursor_visible(events, idx, time_ms, config.auto_hide_after_ms);
    let click_highlight = if config.highlight_clicks {
        get_click_highlight(events, time_ms)
    } else {
        None
    };
    CursorState { x: smooth_x, y: smooth_y, visible, click_highlight }
}

} // verus!
