//! Recorded pointer events: the sole temporal input of the zoom and cursor
//! engines. Screen coordinates are whole pixels.

use vstd::prelude::*;

verus! {

#[derive(Debug, Clone, Copy, PartialEq, Eq, Structural)]
pub enum EventType {
    Click,
    Move,
    Scroll,
}

#[derive(Debug, Clone, Copy, PartialEq, Eq, Structural)]
pub enum MouseButton {
    Left,
    Right,
    Middle,
    Other,
}

/// One pointer event, timestamped in milliseconds since recording start.
#[derive(Debug, Clone, Copy, PartialEq, Eq, Structural)]
pub struct MouseEvent {
    pub timestamp_ms: u64,
    /// Screen X coordinate in pixels.
    pub x: i64,
    /// Screen Y coordinate in pixels.
    pub y: i64,
    pub event_type: EventType,
    pub button: MouseButton,
}

/// The full event log of one recording, ordered by timestamp.
#[derive(Debug, Clone)]
pub struct RecordedEvents {
    pub mouse_events: Vec<MouseEvent>,
    pub recording_start_ms: u64,
    pub display_width: u32,
    pub display_height: u32,
}

/// Whether `e` is a click.
pub open spec fn is_click(e: MouseEvent) -> bool {
    e.event_type == EventType::Click
}

impl RecordedEvents {
    /// An empty log for a display of the given size.
    pub fn new(display_width: u32, display_height: u32) -> (r: Self)
        ensures
            r.mouse_events@.len() == 0,
            r.recording_start_ms == 0,
            r.display_width == display_width,
            r.display_height == display_height,
    {
        RecordedEvents {
            mouse_events: Vec::new(),
            recording_start_ms: 0,
            display_width,
            display_height,
        }
    }

    /// The click events of the log, in log order.
    pub fn click_events(&self) -> (r: Vec<MouseEvent>)
        ensures
            r@ == self.mouse_events@.filter(|e: MouseEvent| is_click(e)),
            forall|i: int| 0 <= i < r@.len() ==> self.mouse_events@.contains(#[trigger] r@[i]),
    {
        let mut r: Vec<MouseEvent> = Vec::new();
        let n = self.mouse_events.len();
        for i in 0..n
            invariant
                n == self.mouse_events@.len(),
                r@ == self.mouse_events@.take(i as int).filter(|e: MouseEvent| is_click(e)),
                forall|j: int|
                    0 <= j < r@.len() ==> self.mouse_events@.contains(#[trigger] r@[j]),
        {
            let e = self.mouse_events[i];
            proof {
                reveal(Seq::filter);
                let s = self.mouse_events@;
                assert(s.take(i + 1).drop_last() =~= s.take(i as int));
                assert(s.take(i + 1).last() == s[i as int]);
            }
            if matches!(e.event_type, EventType::Click) {
                r.push(e);
                proof {
                    assert(self.mouse_events@[i as int] == e);
                    assert(self.mouse_events@.contains(e));
                }
            }
        }
        proof {
            assert(self.mouse_events@.take(self.mouse_events@.len() as int)
                =~= self.mouse_events@);
        }
        r
    }
}

} // verus!
