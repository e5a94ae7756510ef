//! Decisions of the capture loop: whether to capture, wait or stop, and when
//! to drop to the idle frame rate.
use vstd::prelude::*;

use super::CaptureState;
use crate::text::{chars_equal, chars_of};

verus! {

/// What the capture loop does in one turn.
#[derive(Debug, Clone, Copy, PartialEq, Eq, Structural)]
pub enum LoopAction {
    /// Leave the loop: capture was stopped.
    Exit,
    /// Wait a moment and look again: capture is paused.
    Wait,
    /// Capture a frame.
    Capture,
}

/// The loop's action for a capture state.
pub open spec fn loop_action_for(state: CaptureState) -> LoopAction {
    match state {
        CaptureState::Idle => LoopAction::Exit,
        CaptureState::Paused => LoopAction::Wait,
        CaptureState::Recording => LoopAction::Capture,
    }
}

pub fn loop_action(state: CaptureState) -> (a: LoopAction)
    ensures
        a == loop_action_for(state),
{
    match state {
        CaptureState::Idle => LoopAction::Exit,
        CaptureState::Paused => LoopAction::Wait,
        CaptureState::Recording => LoopAction::Capture,
    }
}

/// The state after a control command: start and resume record, pause pauses,
/// stop returns to idle.
#[derive(Debug, Clone, Copy, PartialEq, Eq, Structural)]
pub enum CaptureCommand {
    Start,
    Pause,
    Resume,
    Stop,
}

pub open spec fn state_after(cmd: CaptureCommand) -> CaptureState {
    match cmd {
        CaptureCommand::Start => CaptureState::Recording,
        CaptureCommand::Pause => CaptureState::Paused,
        CaptureCommand::Resume => CaptureState::Recording,
        CaptureCommand::Stop => CaptureState::Idle,
    }
}

/// The capture state a command sets (whatever the state before).
pub fn apply_command(cmd: CaptureCommand) -> (s: CaptureState)
    ensures
        s == state_after(cmd),
{
    match cmd {
        CaptureCommand::Start => CaptureState::Recording,
        CaptureCommand::Pause => CaptureState::Paused,
        CaptureCommand::Resume => CaptureState::Recording,
        CaptureCommand::Stop => CaptureState::Idle,
    }
}

/// Which configured frame rate applies to the next frame.
#[derive(Debug, Clone, Copy, PartialEq, Eq, Structural)]
pub enum FrameRate {
    Active,
    Idle,
}

/// Tracks window changes for idle detection: capture drops to the idle rate
/// when the active window title has not changed for longer than the threshold.
pub struct ActivityTracker {
    prev_window_title: Vec<char>,
    last_window_change_ms: u64,
    idle_threshold_secs: u32,
}

impl ActivityTracker {
    pub closed spec fn last_title(&self) -> Seq<char> {
        self.prev_window_title@
    }

    pub closed spec fn last_change_ms(&self) -> u64 {
        self.last_window_change_ms
    }

    pub closed spec fn threshold_secs(&self) -> u32 {
        self.idle_threshold_secs
    }

    /// A tracker that counts the time before the first frame from `now_ms`.
    pub fn new(now_ms: u64, idle_threshold_secs: u32) -> (t: Self)
        ensures
            t.last_title() == Seq::<char>::empty(),
            t.last_change_ms() == now_ms,
            t.threshold_secs() == idle_threshold_secs,
    {
        ActivityTracker {
            prev_window_title: Vec::new(),
            last_window_change_ms: now_ms,
            idle_threshold_secs,
        }
    }

    /// Whether `observe` accepts a frame: a frame with an unchanged title may
    /// not predate the last window change.
    pub fn can_observe(&self, window_title: &str, timestamp_ms: u64) -> (r: bool)
        ensures
            r == (window_title@ == self.last_title() ==> self.last_change_ms() <= timestamp_ms),
    {
        let title = chars_of(window_title);
        !chars_equal(title.as_slice(), self.prev_window_title.as_slice())
            || self.last_window_change_ms <= timestamp_ms
    }

    /// Records the window title of a frame taken at `timestamp_ms` and says
    /// which frame rate applies next: a changed title resets the idle clock;
    /// the idle rate applies once the time since the last change exceeds the
    /// threshold.
    pub fn observe(&mut self, window_title: &str, timestamp_ms: u64) -> (r: FrameRate)
        requires
            window_title@ == old(self).last_title() ==> old(self).last_change_ms() <= timestamp_ms,
        ensures
            final(self).threshold_secs() == old(self).threshold_secs(),
            final(self).last_title() == window_title@,
            final(self).last_change_ms() == if window_title@ == old(self).last_title() {
                old(self).last_change_ms()
            } else {
                timestamp_ms
            },
            r == if timestamp_ms - final(self).last_change_ms() > old(self).threshold_secs() * 1000 {
                FrameRate::Idle
            } else {
                FrameRate::Active
            },
            window_title@ != old(self).last_title() ==> r == FrameRate::Active,
    {
        let title = chars_of(window_title);
        if !chars_equal(title.as_slice(), self.prev_window_title.as_slice()) {
            self.last_window_change_ms = timestamp_ms;
            self.prev_window_title = title;
        }
        let idle_duration_ms = timestamp_ms - self.last_window_change_ms;
        if idle_duration_ms > (self.idle_threshold_secs as u64) * 1000 {
            FrameRate::Idle
        } else {
            FrameRate::Active
        }
    }
}

} // verus!
