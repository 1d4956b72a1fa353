//! The decisions of the long-screenshot runtime that drives capture and
//! scrolling: when a capture is due, which worker answers still count, when
//! auto-scrolling gives up. Times are milliseconds on a monotonic clock that
//! the caller reads; the caller performs the captures, the wheel messages and
//! the appends, and reports back.

use vstd::prelude::*;
use crate::longshot::capture::LongShotCaptureRequest;
use crate::longshot::session::{LongShotAppendStatus, LongShotStartError};
use crate::longshot::types::{LongShotPoint, LongShotRect};
use crate::platform::div_toward_zero;

verus! {

#[derive(Clone, Copy, Debug, PartialEq, Eq, Structural)]
pub struct LongShotRuntimeConfig {
    pub capture_delay_ms: u64,
    pub min_capture_interval_ms: u64,
    pub auto_scroll_interval_ms: u64,
    pub auto_capture_delay_ms: u64,
    pub auto_capture_interval_ms: u64,
    pub auto_wheel_delta: i32,
    pub max_auto_stalls: i32,
}

impl Default for LongShotRuntimeConfig {
    fn default() -> (c: Self)
        ensures
            c.capture_delay_ms == 50,
            c.min_capture_interval_ms == 35,
            c.auto_scroll_interval_ms == 120,
            c.auto_capture_delay_ms == 45,
            c.auto_capture_interval_ms == 55,
            c.auto_wheel_delta == -40,
            c.max_auto_stalls == 5,
    {
        LongShotRuntimeConfig {
            capture_delay_ms: 50,
            min_capture_interval_ms: 35,
            auto_scroll_interval_ms: 120,
            auto_capture_delay_ms: 45,
            auto_capture_interval_ms: 55,
            auto_wheel_delta: -40,
            max_auto_stalls: 5,
        }
    }
}

#[derive(Clone, Copy, Debug, PartialEq, Eq, Structural)]
pub enum LongShotRuntimeError {
    InvalidRegion,
    InitialCaptureFailed,
    Start(LongShotStartError),
}

/// What the runtime does after the session has taken (or refused) a
/// captured frame.
#[derive(Clone, Copy, Debug, PartialEq, Eq, Structural)]
pub enum AppendReaction {
    /// The frame was appended: show the new preview.
    PreviewUpdated,
    /// The output is as tall as it may get; auto-scrolling stopped.
    MaxOutputHeightReached,
    /// The frame was not used; `auto_scroll_stopped` when that was one stall
    /// too many.
    FrameIgnored { auto_scroll_stopped: bool },
}

/// The runtime's bookkeeping, field by field.
#[derive(Clone, Copy, Debug, PartialEq, Eq, Structural)]
pub struct LongShotRuntimeModel {
    pub config: LongShotRuntimeConfig,
    pub desktop_bounds: LongShotRect,
    pub overlay_hwnd: isize,
    pub source_region: LongShotRect,
    pub generation: u64,
    pub pending_capture: bool,
    pub pending_seq: u64,
    pub capture_due_ms: u64,
    pub last_frame_capture_ms: u64,
    pub capture_in_flight: bool,
    pub capture_in_flight_seq: u64,
    pub auto_scroll_active: bool,
    pub auto_stalls: i32,
    pub next_auto_scroll_ms: u64,
    pub last_scroll_target: isize,
}

/// The long-screenshot runtime's state apart from the session and the
/// capture worker.
#[derive(Clone, Debug)]
pub struct LongShotRuntime {
    config: LongShotRuntimeConfig,
    desktop_bounds: LongShotRect,
    overlay_hwnd: isize,
    source_region: LongShotRect,
    generation: u64,
    pending_capture: bool,
    pending_seq: u64,
    capture_due_ms: u64,
    last_frame_capture_ms: u64,
    capture_in_flight: bool,
    capture_in_flight_seq: u64,
    auto_scroll_active: bool,
    auto_stalls: i32,
    next_auto_scroll_ms: u64,
    last_scroll_target: isize,
}

/// `a + b` saturated at `u64::MAX`.
pub open spec fn sat_add_u64(a: int, b: int) -> u64 {
    if a + b <= u64::MAX { (a + b) as u64 } else { u64::MAX }
}

/// The bookkeeping with every capture and auto-scroll cleared at `now_ms` and
/// the generation advanced (saturating), so that answers to earlier requests
/// no longer count.
pub open spec fn cleared_model(m: LongShotRuntimeModel, now_ms: u64) -> LongShotRuntimeModel {
    LongShotRuntimeModel {
        generation: sat_add_u64(m.generation as int, 1),
        pending_capture: false,
        pending_seq: 0,
        capture_due_ms: now_ms,
        last_frame_capture_ms: now_ms,
        capture_in_flight: false,
        capture_in_flight_seq: 0,
        auto_scroll_active: false,
        auto_stalls: 0,
        next_auto_scroll_ms: now_ms,
        last_scroll_target: 0,
        ..m
    }
}

/// When a capture for a scroll at `scroll_at_ms` becomes due: after the
/// capture delay, and no sooner than the minimum interval after the last
/// capture; an earlier pending capture is never postponed.
pub open spec fn spec_capture_due(m: LongShotRuntimeModel, scroll_at_ms: int, delay_ms: int, interval_ms: int) -> u64 {
    let requested = scroll_at_ms + delay_ms;
    let spaced = m.last_frame_capture_ms + interval_ms;
    let next = if requested >= spaced { requested } else { spaced };
    if m.pending_capture && m.capture_due_ms <= next {
        m.capture_due_ms
    } else {
        next as u64
    }
}

/// The auto-stall count after one more stall, and whether auto-scrolling
/// stops there: only an active auto-scroll stalls.
pub open spec fn stalled_model(m: LongShotRuntimeModel) -> LongShotRuntimeModel {
    if !m.auto_scroll_active {
        m
    } else if m.auto_stalls + 1 >= m.config.max_auto_stalls {
        LongShotRuntimeModel { auto_stalls: (m.auto_stalls + 1) as i32, auto_scroll_active: false, ..m }
    } else {
        LongShotRuntimeModel { auto_stalls: (m.auto_stalls + 1) as i32, ..m }
    }
}

impl LongShotRuntime {
    pub closed spec fn model(&self) -> LongShotRuntimeModel {
        LongShotRuntimeModel {
            config: self.config,
            desktop_bounds: self.desktop_bounds,
            overlay_hwnd: self.overlay_hwnd,
            source_region: self.source_region,
            generation: self.generation,
            pending_capture: self.pending_capture,
            pending_seq: self.pending_seq,
            capture_due_ms: self.capture_due_ms,
            last_frame_capture_ms: self.last_frame_capture_ms,
            capture_in_flight: self.capture_in_flight,
            capture_in_flight_seq: self.capture_in_flight_seq,
            auto_scroll_active: self.auto_scroll_active,
            auto_stalls: self.auto_stalls,
            next_auto_scroll_ms: self.next_auto_scroll_ms,
            last_scroll_target: self.last_scroll_target,
        }
    }

    /// The stall count is never negative, and while auto-scrolling it is 0
    /// or below the stall limit.
    pub open spec fn wf(&self) -> bool {
        &&& self.model().auto_stalls >= 0
        &&& self.model().auto_scroll_active ==> (self.model().auto_stalls == 0 || self.model().auto_stalls
            < self.model().config.max_auto_stalls)
    }

    /// A runtime with nothing started, its clock at `now_ms`.
    pub fn new(config: LongShotRuntimeConfig, now_ms: u64) -> (r: Self)
        ensures
            r.wf(),
            r.model() == (LongShotRuntimeModel {
                config,
                desktop_bounds: LongShotRect { x: 0, y: 0, w: 0, h: 0 },
                overlay_hwnd: 0,
                source_region: LongShotRect { x: 0, y: 0, w: 0, h: 0 },
                generation: 0,
                pending_capture: false,
                pending_seq: 0,
                capture_due_ms: now_ms,
                last_frame_capture_ms: now_ms,
                capture_in_flight: false,
                capture_in_flight_seq: 0,
                auto_scroll_active: false,
                auto_stalls: 0,
                next_auto_scroll_ms: now_ms,
                last_scroll_target: 0,
            }),
    {
        LongShotRuntime {
            config,
            desktop_bounds: LongShotRect { x: 0, y: 0, w: 0, h: 0 },
            overlay_hwnd: 0,
            source_region: LongShotRect { x: 0, y: 0, w: 0, h: 0 },
            generation: 0,
            pending_capture: false,
            pending_seq: 0,
            capture_due_ms: now_ms,
            last_frame_capture_ms: now_ms,
            capture_in_flight: false,
            capture_in_flight_seq: 0,
            auto_scroll_active: false,
            auto_stalls: 0,
            next_auto_scroll_ms: now_ms,
            last_scroll_target: 0,
        }
    }

    fn clear(&mut self, now_ms: u64)
        ensures
            final(self).model() == cleared_model(old(self).model(), now_ms),
    {
        self.generation = self.generation.saturating_add(1);
        self.pending_capture = false;
        self.pending_seq = 0;
        self.capture_due_ms = now_ms;
        self.last_frame_capture_ms = now_ms;
        self.capture_in_flight = false;
        self.capture_in_flight_seq = 0;
        self.auto_scroll_active = false;
        self.auto_stalls = 0;
        self.next_auto_scroll_ms = now_ms;
        self.last_scroll_target = 0;
    }

    /// Drops every pending capture and stops auto-scrolling; answers to
    /// requests made before no longer count.
    pub fn reset(&mut self, now_ms: u64)
        ensures
            final(self).wf(),
            final(self).model() == cleared_model(old(self).model(), now_ms),
    {
        self.clear(now_ms);
    }

    /// Records a started session on `source_region` of the desktop at
    /// `desktop_bounds`, with everything else cleared at `now_ms`.
    pub fn started(&mut self, desktop_bounds: LongShotRect, overlay_hwnd: isize, source_region: LongShotRect, now_ms: u64)
        ensures
            final(self).wf(),
            final(self).model() == (LongShotRuntimeModel {
                desktop_bounds,
                overlay_hwnd,
                source_region,
                ..cleared_model(old(self).model(), now_ms)
            }),
    {
        self.clear(now_ms);
        self.desktop_bounds = desktop_bounds;
        self.overlay_hwnd = overlay_hwnd;
        self.source_region = source_region;
    }

    pub fn is_auto_scroll_active(&self) -> (b: bool)
        ensures
            b == self.model().auto_scroll_active,
    {
        self.auto_scroll_active
    }

    pub fn source_region(&self) -> (r: LongShotRect)
        ensures
            r == self.model().source_region,
    {
        self.source_region
    }

    pub fn desktop_bounds(&self) -> (r: LongShotRect)
        ensures
            r == self.model().desktop_bounds,
    {
        self.desktop_bounds
    }

    pub fn overlay_hwnd(&self) -> (h: isize)
        ensures
            h == self.model().overlay_hwnd,
    {
        self.overlay_hwnd
    }

    pub fn config(&self) -> (c: LongShotRuntimeConfig)
        ensures
            c == self.model().config,
    {
        self.config
    }

    pub fn capture_in_flight(&self) -> (b: bool)
        ensures
            b == self.model().capture_in_flight,
    {
        self.capture_in_flight
    }

    pub fn last_frame_capture_ms(&self) -> (t: u64)
        ensures
            t == self.model().last_frame_capture_ms,
    {
        self.last_frame_capture_ms
    }

    /// Stops auto-scrolling, as finishing for export does.
    pub fn stop_auto_scroll(&mut self)
        requires
            old(self).wf(),
        ensures
            final(self).wf(),
            final(self).model() == (LongShotRuntimeModel { auto_scroll_active: false, ..old(self).model() }),
    {
        self.auto_scroll_active = false;
    }

    /// The window the last wheel message went to, for the wheel poster to
    /// update.
    pub fn last_scroll_target_mut(&mut self) -> (t: &mut isize)
        ensures
            *t == old(self).model().last_scroll_target,
            final(self).model() == (LongShotRuntimeModel { last_scroll_target: *final(t), ..old(self).model() }),
    {
        &mut self.last_scroll_target
    }

    /// Turns auto-scrolling on or off; it stays off while no session is
    /// active. Turning it either way restarts the stall count and the timer.
    pub fn set_auto_scroll(&mut self, active: bool, session_active: bool, now_ms: u64)
        requires
            old(self).wf(),
        ensures
            final(self).wf(),
            final(self).model() == if !session_active {
                LongShotRuntimeModel { auto_scroll_active: false, ..old(self).model() }
            } else {
                LongShotRuntimeModel {
                    auto_scroll_active: active,
                    auto_stalls: 0,
                    next_auto_scroll_ms: now_ms,
                    ..old(self).model()
                }
            },
    {
        if !session_active {
            self.auto_scroll_active = false;
            return;
        }
        self.auto_scroll_active = active;
        self.auto_stalls = 0;
        self.next_auto_scroll_ms = now_ms;
    }

    /// Flips auto-scrolling and says whether it is now on.
    pub fn toggle_auto_scroll(&mut self, session_active: bool, now_ms: u64) -> (on: bool)
        requires
            old(self).wf(),
        ensures
            final(self).wf(),
            on == final(self).model().auto_scroll_active,
            final(self).model() == if !session_active {
                LongShotRuntimeModel { auto_scroll_active: false, ..old(self).model() }
            } else {
                LongShotRuntimeModel {
                    auto_scroll_active: !old(self).model().auto_scroll_active,
                    auto_stalls: 0,
                    next_auto_scroll_ms: now_ms,
                    ..old(self).model()
                }
            },
    {
        let active = !self.auto_scroll_active;
        self.set_auto_scroll(active, session_active, now_ms);
        self.auto_scroll_active
    }

    /// Plans a capture for scroll `seq` made at `scroll_at_ms`.
    pub fn schedule_capture(&mut self, seq: u64, scroll_at_ms: u64, capture_delay_ms: u64, min_capture_interval_ms: u64)
        requires
            old(self).wf(),
            scroll_at_ms + capture_delay_ms <= u64::MAX,
            old(self).model().last_frame_capture_ms + min_capture_interval_ms <= u64::MAX,
        ensures
            final(self).wf(),
            final(self).model() == (LongShotRuntimeModel {
                pending_seq: seq,
                pending_capture: true,
                capture_due_ms: spec_capture_due(
                    old(self).model(),
                    scroll_at_ms as int,
                    capture_delay_ms as int,
                    min_capture_interval_ms as int,
                ),
                ..old(self).model()
            }),
    {
        self.pending_seq = seq;
        let requested_due = scroll_at_ms + capture_delay_ms;
        let interval_due = self.last_frame_capture_ms + min_capture_interval_ms;
        let next_due = if requested_due >= interval_due { requested_due } else { interval_due };
        self.capture_due_ms = if self.pending_capture && self.capture_due_ms <= next_due {
            self.capture_due_ms
        } else {
            next_due
        };
        self.pending_capture = true;
    }

    /// Whether an auto-scroll step is due at `now_ms`.
    pub fn auto_scroll_due(&self, now_ms: u64) -> (b: bool)
        ensures
            b == (self.model().auto_scroll_active && now_ms >= self.model().next_auto_scroll_ms),
    {
        self.auto_scroll_active && now_ms >= self.next_auto_scroll_ms
    }

    /// Whether the pending capture should be dispatched at `now_ms`.
    pub fn capture_dispatch_due(&self, now_ms: u64) -> (b: bool)
        ensures
            b == (self.model().pending_capture && !self.model().capture_in_flight && now_ms
                >= self.model().capture_due_ms),
    {
        self.pending_capture && !self.capture_in_flight && now_ms >= self.capture_due_ms
    }

    /// Starts an auto-scroll step at `now_ms`: the next one is due an
    /// interval later, and the wheel goes to the returned point.
    pub fn begin_auto_scroll_step(&mut self, now_ms: u64) -> (point: LongShotPoint)
        requires
            now_ms + old(self).model().config.auto_scroll_interval_ms <= u64::MAX,
            ({
                let m = old(self).model();
                &&& i32::MIN <= m.desktop_bounds.x + m.source_region.x + div_toward_zero(m.source_region.w as int, 2) <= i32::MAX
                &&& i32::MIN <= m.desktop_bounds.y + m.source_region.y + div_toward_zero(m.source_region.h as int, 2) <= i32::MAX
                &&& i32::MIN <= m.desktop_bounds.x + m.source_region.x <= i32::MAX
                &&& i32::MIN <= m.desktop_bounds.y + m.source_region.y <= i32::MAX
            }),
        ensures
            final(self).model() == (LongShotRuntimeModel {
                next_auto_scroll_ms: (now_ms + old(self).model().config.auto_scroll_interval_ms) as u64,
                ..old(self).model()
            }),
            point == spec_auto_scroll_point(old(self).model()),
    {
        self.next_auto_scroll_ms = now_ms + self.config.auto_scroll_interval_ms;
        self.auto_scroll_point()
    }

    /// The screen point auto-scrolling aims at: the middle of the region.
    pub fn auto_scroll_point(&self) -> (p: LongShotPoint)
        requires
            ({
                let m = self.model();
                &&& i32::MIN <= m.desktop_bounds.x + m.source_region.x + div_toward_zero(m.source_region.w as int, 2) <= i32::MAX
                &&& i32::MIN <= m.desktop_bounds.y + m.source_region.y + div_toward_zero(m.source_region.h as int, 2) <= i32::MAX
                &&& i32::MIN <= m.desktop_bounds.x + m.source_region.x <= i32::MAX
                &&& i32::MIN <= m.desktop_bounds.y + m.source_region.y <= i32::MAX
            }),
        ensures
            p == spec_auto_scroll_point(self.model()),
    {
        LongShotPoint {
            x: self.desktop_bounds.x + self.source_region.x + self.source_region.w / 2,
            y: self.desktop_bounds.y + self.source_region.y + self.source_region.h / 2,
        }
    }

    /// Counts a stall of auto-scrolling; returns true when that stops it.
    pub fn record_auto_stall(&mut self) -> (stopped: bool)
        requires
            old(self).wf(),
        ensures
            final(self).wf(),
            final(self).model() == stalled_model(old(self).model()),
            stopped == (old(self).model().auto_scroll_active && !final(self).model().auto_scroll_active),
    {
        if !self.auto_scroll_active {
            return false;
        }
        self.auto_stalls = self.auto_stalls + 1;
        if self.auto_stalls >= self.config.max_auto_stalls {
            self.auto_scroll_active = false;
            true
        } else {
            false
        }
    }

    /// Takes the pending capture at `now_ms`. When the output cannot take
    /// another frame of the region's height, auto-scrolling stops and there
    /// is nothing to capture; otherwise the request to send.
    pub fn begin_dispatch(&mut self, now_ms: u64, can_accept_frame: bool) -> (request: Option<LongShotCaptureRequest>)
        requires
            old(self).wf(),
        ensures
            final(self).wf(),
            ({
                let m = LongShotRuntimeModel { pending_capture: false, last_frame_capture_ms: now_ms, ..old(self).model() };
                if can_accept_frame {
                    &&& final(self).model() == m
                    &&& request matches Some(r) && r.generation == m.generation && r.seq == m.pending_seq
                        && r.desktop_bounds == m.desktop_bounds && r.overlay_hwnd == m.overlay_hwnd && r.region
                        == m.source_region
                } else {
                    &&& final(self).model() == (LongShotRuntimeModel { auto_scroll_active: false, ..m })
                    &&& request is None
                }
            }),
    {
        self.pending_capture = false;
        self.last_frame_capture_ms = now_ms;
        if !can_accept_frame {
            self.auto_scroll_active = false;
            return None;
        }
        Some(LongShotCaptureRequest {
            generation: self.generation,
            seq: self.pending_seq,
            desktop_bounds: self.desktop_bounds,
            overlay_hwnd: self.overlay_hwnd,
            region: self.source_region,
        })
    }

    /// Records that the worker took the request for scroll `seq`.
    pub fn capture_requested(&mut self, seq: u64)
        ensures
            final(self).model() == (LongShotRuntimeModel {
                capture_in_flight: true,
                capture_in_flight_seq: seq,
                ..old(self).model()
            }),
    {
        self.capture_in_flight = true;
        self.capture_in_flight_seq = seq;
    }

    /// Whether an answer tagged `generation` and `seq` still counts: it must
    /// come from the current generation and, while a request is in flight,
    /// answer that request. An answer that counts ends the flight.
    pub fn accept_response(&mut self, generation: u64, seq: u64) -> (accepted: bool)
        ensures
            accepted == spec_accepts(old(self).model(), generation, seq),
            final(self).model() == if accepted {
                LongShotRuntimeModel { capture_in_flight: false, ..old(self).model() }
            } else {
                old(self).model()
            },
    {
        if generation != self.generation {
            return false;
        }
        if self.capture_in_flight && seq != self.capture_in_flight_seq {
            return false;
        }
        self.capture_in_flight = false;
        true
    }

    /// Reacts to what the session did with an accepted frame: an appended
    /// frame clears the stall count, a frame refused as too tall stops
    /// auto-scrolling, and every other frame (not appended for any reason)
    /// counts as a stall.
    pub fn after_append(&mut self, status: LongShotAppendStatus) -> (reaction: AppendReaction)
        requires
            old(self).wf(),
        ensures
            final(self).wf(),
            final(self).model() == spec_after_append(old(self).model(), status),
            reaction == match status {
                LongShotAppendStatus::Appended => AppendReaction::PreviewUpdated,
                LongShotAppendStatus::TooTall => AppendReaction::MaxOutputHeightReached,
                _ => AppendReaction::FrameIgnored {
                    auto_scroll_stopped: old(self).model().auto_scroll_active && !final(self).model().auto_scroll_active,
                },
            },
    {
        match status {
            LongShotAppendStatus::Appended => {
                self.auto_stalls = 0;
                AppendReaction::PreviewUpdated
            },
            LongShotAppendStatus::TooTall => {
                self.auto_scroll_active = false;
                AppendReaction::MaxOutputHeightReached
            },
            _ => {
                let stopped = self.record_auto_stall();
                AppendReaction::FrameIgnored { auto_scroll_stopped: stopped }
            },
        }
    }
}

/// The bookkeeping after the session answered an accepted frame with
/// `status`.
pub open spec fn spec_after_append(m: LongShotRuntimeModel, status: LongShotAppendStatus) -> LongShotRuntimeModel {
    match status {
        LongShotAppendStatus::Appended => LongShotRuntimeModel { auto_stalls: 0, ..m },
        LongShotAppendStatus::TooTall => LongShotRuntimeModel { auto_scroll_active: false, ..m },
        _ => stalled_model(m),
    }
}

/// The bookkeeping after the session answered accepted frames with
/// `statuses`, in order.
pub open spec fn after_appends(m: LongShotRuntimeModel, statuses: Seq<LongShotAppendStatus>) -> LongShotRuntimeModel
    decreases statuses.len(),
{
    if statuses.len() == 0 {
        m
    } else {
        spec_after_append(after_appends(m, statuses.drop_last()), statuses.last())
    }
}

/// The middle of the source region in screen coordinates.
pub open spec fn spec_auto_scroll_point(m: LongShotRuntimeModel) -> LongShotPoint {
    LongShotPoint {
        x: (m.desktop_bounds.x + m.source_region.x + div_toward_zero(m.source_region.w as int, 2)) as i32,
        y: (m.desktop_bounds.y + m.source_region.y + div_toward_zero(m.source_region.h as int, 2)) as i32,
    }
}

/// An answer counts when it belongs to the current generation and, while a
/// capture is in flight, to that capture.
pub open spec fn spec_accepts(m: LongShotRuntimeModel, generation: u64, seq: u64) -> bool {
    generation == m.generation && (!m.capture_in_flight || seq == m.capture_in_flight_seq)
}

/// `k` stalls in a row.
pub open spec fn stalls_in_a_row(m: LongShotRuntimeModel, k: nat) -> LongShotRuntimeModel
    decreases k,
{
    if k == 0 {
        m
    } else {
        stalled_model(stalls_in_a_row(m, (k - 1) as nat))
    }
}

/// After a reset (or a new start) no answer to a request of the earlier
/// generation counts any more, whatever its scroll number, as long as the
/// generation counter has not reached its ceiling.
pub proof fn lemma_reset_discards_stale_answers(m: LongShotRuntimeModel, now_ms: u64, seq: u64)
    requires
        m.generation < u64::MAX,
    ensures
        !spec_accepts(cleared_model(m, now_ms), m.generation, seq),
{
}

/// Auto-scrolling switched on with a fresh stall count (and a limit of at
/// least one) keeps going through fewer than `max_auto_stalls` stalls in a row
/// and stops at exactly that many.
pub proof fn lemma_auto_scroll_stops_after_max_stalls(m: LongShotRuntimeModel, k: nat)
    requires
        m.auto_scroll_active,
        m.auto_stalls == 0,
        m.config.max_auto_stalls >= 1,
        k <= m.config.max_auto_stalls,
    ensures
        stalls_in_a_row(m, k).auto_scroll_active <==> k < m.config.max_auto_stalls,
        stalls_in_a_row(m, k).auto_stalls == k,
        stalls_in_a_row(m, k).config == m.config,
    decreases k,
{
    if k > 0 {
        lemma_auto_scroll_stops_after_max_stalls(m, (k - 1) as nat);
    }
}

/// Scheduling never postpones a pending capture, and a new capture is never
/// due before its scroll's delay has passed, nor sooner than the minimum
/// interval after the last capture.
pub proof fn lemma_capture_due_bounds(m: LongShotRuntimeModel, scroll_at_ms: u64, delay_ms: u64, interval_ms: u64)
    requires
        scroll_at_ms + delay_ms <= u64::MAX,
        m.last_frame_capture_ms + interval_ms <= u64::MAX,
    ensures
        m.pending_capture ==> spec_capture_due(m, scroll_at_ms as int, delay_ms as int, interval_ms as int)
            <= m.capture_due_ms,
        !m.pending_capture ==> {
            let due = spec_capture_due(m, scroll_at_ms as int, delay_ms as int, interval_ms as int);
            &&& due >= scroll_at_ms + delay_ms
            &&& due >= m.last_frame_capture_ms + interval_ms
        },
{
}

/// Auto-scrolling switched on with a fresh stall count (and a limit of at
/// least one) stops once `max_auto_stalls` accepted frames in a row have not
/// been appended, whatever the reason each was refused; while fewer have, and
/// none was refused as too tall, it keeps going.
pub proof fn lemma_unappended_frames_stop_auto_scroll(m: LongShotRuntimeModel, statuses: Seq<LongShotAppendStatus>)
    requires
        m.auto_scroll_active,
        m.auto_stalls == 0,
        m.config.max_auto_stalls >= 1,
        statuses.len() <= m.config.max_auto_stalls,
        forall|i: int| 0 <= i < statuses.len() ==> statuses[i] != LongShotAppendStatus::Appended,
    ensures
        after_appends(m, statuses).config == m.config,
        statuses.len() == m.config.max_auto_stalls ==> !after_appends(m, statuses).auto_scroll_active,
        (forall|i: int| 0 <= i < statuses.len() ==> statuses[i] != LongShotAppendStatus::TooTall)
            ==> (after_appends(m, statuses).auto_scroll_active <==> statuses.len() < m.config.max_auto_stalls)
            && after_appends(m, statuses).auto_stalls == statuses.len(),
        !after_appends(m, statuses).auto_scroll_active || after_appends(m, statuses).auto_stalls == statuses.len(),
    decreases statuses.len(),
{
    if statuses.len() > 0 {
        let prev = statuses.drop_last();
        assert forall|i: int| 0 <= i < prev.len() implies prev[i] != LongShotAppendStatus::Appended by {
            assert(prev[i] == statuses[i]);
        }
        lemma_unappended_frames_stop_auto_scroll(m, prev);
        if forall|i: int| 0 <= i < statuses.len() ==> statuses[i] != LongShotAppendStatus::TooTall {
            assert forall|i: int| 0 <= i < prev.len() implies prev[i] != LongShotAppendStatus::TooTall by {
                assert(prev[i] == statuses[i]);
            }
        }
        assert(statuses.last() == statuses[statuses.len() - 1]);
    }
}

/// How many statuses at the end of `statuses` are not `Appended`.
pub open spec fn trailing_unappended(statuses: Seq<LongShotAppendStatus>) -> nat
    decreases statuses.len(),
{
    if statuses.len() == 0 || statuses.last() == LongShotAppendStatus::Appended {
        0
    } else {
        1 + trailing_unappended(statuses.drop_last())
    }
}

/// An appended frame ends a run of stalls: whatever came before, the stall
/// count is 0 afterwards and auto-scrolling is neither stopped nor started.
pub proof fn lemma_appended_frame_clears_stalls(m: LongShotRuntimeModel)
    ensures
        spec_after_append(m, LongShotAppendStatus::Appended).auto_stalls == 0,
        spec_after_append(m, LongShotAppendStatus::Appended).auto_scroll_active == m.auto_scroll_active,
{
}

/// With auto-scrolling switched on afresh and no frame refused as too tall,
/// the stall count always equals the number of frames since the last
/// appended one, and auto-scrolling has stopped exactly when some run of
/// unappended frames with no appended frame between them reached
/// `max_auto_stalls`; so frames that keep being appended never stop it.
pub proof fn lemma_stalls_count_unappended_run(m: LongShotRuntimeModel, statuses: Seq<LongShotAppendStatus>)
    requires
        m.auto_scroll_active,
        m.auto_stalls == 0,
        m.config.max_auto_stalls >= 1,
        forall|i: int| 0 <= i < statuses.len() ==> statuses[i] != LongShotAppendStatus::TooTall,
    ensures
        after_appends(m, statuses).config == m.config,
        after_appends(m, statuses).auto_scroll_active ==> after_appends(m, statuses).auto_stalls
            == trailing_unappended(statuses) && trailing_unappended(statuses) < m.config.max_auto_stalls,
        !after_appends(m, statuses).auto_scroll_active <==> exists|k: int|
            0 < k <= statuses.len() && #[trigger] trailing_unappended(statuses.take(k)) >= m.config.max_auto_stalls,
    decreases statuses.len(),
{
    if statuses.len() > 0 {
        let prev = statuses.drop_last();
        assert forall|i: int| 0 <= i < prev.len() implies prev[i] != LongShotAppendStatus::TooTall by {
            assert(prev[i] == statuses[i]);
        }
        lemma_stalls_count_unappended_run(m, prev);
        assert(statuses.last() == statuses[statuses.len() - 1]);
        assert(statuses.take(statuses.len() as int) =~= statuses);
        assert forall|k: int| 0 < k <= prev.len() implies #[trigger] statuses.take(k) == prev.take(k) by {
            assert(statuses.take(k) =~= prev.take(k));
        }
        let p = after_appends(m, prev);
        if !p.auto_scroll_active {
            let k = choose|k: int| 0 < k <= prev.len() && #[trigger] trailing_unappended(prev.take(k)) >= m.config.max_auto_stalls;
            assert(statuses.take(k) == prev.take(k));
        } else {
            if exists|k: int| 0 < k <= statuses.len() && #[trigger] trailing_unappended(statuses.take(k)) >= m.config.max_auto_stalls {
                let k = choose|k: int| 0 < k <= statuses.len() && #[trigger] trailing_unappended(statuses.take(k)) >= m.config.max_auto_stalls;
                if k < statuses.len() {
                    assert(statuses.take(k) == prev.take(k));
                }
            }
        }
    }
}

} // verus!
