//! The screenshot workflow as a finite state machine.

use vstd::prelude::*;
use crate::platform::Rect;

verus! {

/// The phases of one screenshot.
#[derive(Clone, Copy, Debug, PartialEq, Eq, Structural)]
pub enum AppState {
    Idle,
    Capturing,
    Selecting,
    Annotating,
    Saving,
}

/// What can happen to the workflow.
#[derive(Clone, Copy, Debug, PartialEq, Eq, Structural)]
pub enum AppEvent {
    HotkeyTriggered,
    FrameAcquired,
    MouseDown,
    MouseMove,
    MouseUp,
    KeyPress,
    ToolSelected,
    SaveRequested,
    CopyRequested,
    CancelRequested,
    Escape,
    SaveComplete,
}

impl Default for AppState {
    fn default() -> (s: Self)
        ensures
            s == AppState::Idle,
    {
        AppState::Idle
    }
}

/// The transition table: the state after `event` in state `s`. An event that
/// the table does not name leaves the state as it is.
pub open spec fn spec_transition(s: AppState, event: AppEvent) -> AppState {
    match s {
        AppState::Idle => if event == AppEvent::HotkeyTriggered {
            AppState::Capturing
        } else {
            s
        },
        AppState::Capturing => match event {
            AppEvent::FrameAcquired => AppState::Selecting,
            AppEvent::Escape | AppEvent::CancelRequested => AppState::Idle,
            _ => s,
        },
        AppState::Selecting => match event {
            AppEvent::MouseUp => AppState::Annotating,
            AppEvent::Escape | AppEvent::CancelRequested => AppState::Idle,
            _ => s,
        },
        AppState::Annotating => match event {
            AppEvent::SaveRequested | AppEvent::CopyRequested => AppState::Saving,
            AppEvent::Escape | AppEvent::CancelRequested => AppState::Idle,
            _ => s,
        },
        AppState::Saving => if event == AppEvent::SaveComplete {
            AppState::Idle
        } else {
            s
        },
    }
}

/// The state that follows `s` along the capture flow
/// (Idle, Capturing, Selecting, Annotating, Saving, then Idle again).
pub open spec fn flow_successor(s: AppState) -> AppState {
    match s {
        AppState::Idle => AppState::Capturing,
        AppState::Capturing => AppState::Selecting,
        AppState::Selecting => AppState::Annotating,
        AppState::Annotating => AppState::Saving,
        AppState::Saving => AppState::Idle,
    }
}

/// The workflow state together with the region the user selected.
#[derive(Clone, Debug)]
pub struct ScreenshotStateMachine {
    state: AppState,
    selected_region: Rect,
}

impl Default for ScreenshotStateMachine {
    fn default() -> (m: Self)
        ensures
            m.state() == AppState::Idle,
            m.region() == (Rect { x: 0, y: 0, w: 0, h: 0 }),
    {
        ScreenshotStateMachine { state: AppState::Idle, selected_region: Rect { x: 0, y: 0, w: 0, h: 0 } }
    }
}

impl ScreenshotStateMachine {
    /// The current phase.
    pub closed spec fn state(&self) -> AppState {
        self.state
    }

    /// The stored selection.
    pub closed spec fn region(&self) -> Rect {
        self.selected_region
    }

    pub fn current_state(&self) -> (s: AppState)
        ensures
            s == self.state(),
    {
        self.state
    }

    /// Applies `event` and returns the new state.
    pub fn transition(&mut self, event: AppEvent) -> (s: AppState)
        ensures
            s == spec_transition(old(self).state(), event),
            final(self).state() == s,
            final(self).region() == old(self).region(),
    {
        match self.state {
            AppState::Idle => {
                if event == AppEvent::HotkeyTriggered {
                    self.state = AppState::Capturing;
                }
            },
            AppState::Capturing => match event {
                AppEvent::FrameAcquired => self.state = AppState::Selecting,
                AppEvent::Escape | AppEvent::CancelRequested => self.state = AppState::Idle,
                _ => {},
            },
            AppState::Selecting => match event {
                AppEvent::MouseUp => self.state = AppState::Annotating,
                AppEvent::Escape | AppEvent::CancelRequested => self.state = AppState::Idle,
                _ => {},
            },
            AppState::Annotating => match event {
                AppEvent::SaveRequested | AppEvent::CopyRequested => self.state = AppState::Saving,
                AppEvent::Escape | AppEvent::CancelRequested => self.state = AppState::Idle,
                _ => {},
            },
            AppState::Saving => {
                if event == AppEvent::SaveComplete {
                    self.state = AppState::Idle;
                }
            },
        }
        self.state
    }

    pub fn is_selecting(&self) -> (b: bool)
        ensures
            b == (self.state() == AppState::Selecting),
    {
        self.state == AppState::Selecting
    }

    pub fn is_annotating(&self) -> (b: bool)
        ensures
            b == (self.state() == AppState::Annotating),
    {
        self.state == AppState::Annotating
    }

    pub fn set_selected_region(&mut self, rect: Rect)
        ensures
            final(self).region() == rect,
            final(self).state() == old(self).state(),
    {
        self.selected_region = rect;
    }

    pub fn selected_region(&self) -> (r: Rect)
        ensures
            r == self.region(),
    {
        self.selected_region
    }
}

/// Every transition either keeps the state, returns to Idle, or moves one step
/// forward along the capture flow.
pub proof fn lemma_transition_follows_flow(s: AppState, event: AppEvent)
    ensures
        spec_transition(s, event) == s || spec_transition(s, event) == AppState::Idle
            || spec_transition(s, event) == flow_successor(s),
{
}

/// Escape and Cancel abandon an unfinished capture from any phase before saving.
pub proof fn lemma_cancel_returns_to_idle(s: AppState, event: AppEvent)
    requires
        s != AppState::Saving,
        event == AppEvent::Escape || event == AppEvent::CancelRequested,
    ensures
        spec_transition(s, event) == AppState::Idle,
{
}

/// From every state, Escape followed by SaveComplete ends in Idle.
pub proof fn lemma_always_back_to_idle(s: AppState)
    ensures
        spec_transition(spec_transition(s, AppEvent::Escape), AppEvent::SaveComplete)
            == AppState::Idle,
{
}

/// Pointer and keyboard activity never changes the phase.
pub proof fn lemma_input_events_keep_state(s: AppState, event: AppEvent)
    requires
        event == AppEvent::MouseDown || event == AppEvent::MouseMove || event == AppEvent::KeyPress
            || event == AppEvent::ToolSelected,
    ensures
        spec_transition(s, event) == s,
{
}

/// The machine's (state, selected region) after `events` are fed to
/// `transition` in order: each event moves the state by `spec_transition` and
/// leaves the region, as `transition`'s contract states.
pub open spec fn after_events(m: (AppState, Rect), events: Seq<AppEvent>) -> (AppState, Rect)
    decreases events.len(),
{
    if events.len() == 0 {
        m
    } else {
        let prev = after_events(m, events.drop_last());
        (spec_transition(prev.0, events.last()), prev.1)
    }
}

/// The selected region survives any sequence of transitions.
pub proof fn lemma_region_survives_transitions(m: (AppState, Rect), events: Seq<AppEvent>)
    ensures
        after_events(m, events).1 == m.1,
    decreases events.len(),
{
    if events.len() > 0 {
        lemma_region_survives_transitions(m, events.drop_last());
    }
}

/// The phase changes only on the events of the capture flow: the hotkey in
/// Idle, a frame or a cancel while Capturing, mouse-up or a cancel while
/// Selecting, save, copy or a cancel while Annotating, and completion while
/// Saving. Every other event leaves the phase as it is.
pub proof fn lemma_only_flow_events_change_state(s: AppState, event: AppEvent)
    requires
        spec_transition(s, event) != s,
    ensures
        match s {
            AppState::Idle => event == AppEvent::HotkeyTriggered,
            AppState::Capturing => event == AppEvent::FrameAcquired || event == AppEvent::Escape
                || event == AppEvent::CancelRequested,
            AppState::Selecting => event == AppEvent::MouseUp || event == AppEvent::Escape
                || event == AppEvent::CancelRequested,
            AppState::Annotating => event == AppEvent::SaveRequested || event == AppEvent::CopyRequested
                || event == AppEvent::Escape || event == AppEvent::CancelRequested,
            AppState::Saving => event == AppEvent::SaveComplete,
        },
{
}

/// A capture in progress is only dropped back to Idle by Escape or Cancel,
/// and a save only ends with SaveComplete: no other event reaches Idle from
/// another phase.
pub proof fn lemma_only_cancel_or_completion_reach_idle(s: AppState, event: AppEvent)
    requires
        s != AppState::Idle,
        spec_transition(s, event) == AppState::Idle,
    ensures
        if s == AppState::Saving {
            event == AppEvent::SaveComplete
        } else {
            event == AppEvent::Escape || event == AppEvent::CancelRequested
        },
{
}

} // verus!
