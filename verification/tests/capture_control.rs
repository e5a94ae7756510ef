use workshadow::capture::activity::{
    apply_command, loop_action, ActivityTracker, CaptureCommand, FrameRate, LoopAction,
};
use workshadow::capture::CaptureState;

#[test]
fn screen_capture_state_transitions() {
    let mut state = CaptureState::Idle;
    state = apply_command(CaptureCommand::Start);
    assert_eq!(state, CaptureState::Recording);
    state = apply_command(CaptureCommand::Pause);
    assert_eq!(state, CaptureState::Paused);
    state = apply_command(CaptureCommand::Resume);
    assert_eq!(state, CaptureState::Recording);
    state = apply_command(CaptureCommand::Stop);
    assert_eq!(state, CaptureState::Idle);
}

#[test]
fn loop_actions() {
    assert_eq!(loop_action(CaptureState::Idle), LoopAction::Exit);
    assert_eq!(loop_action(CaptureState::Paused), LoopAction::Wait);
    assert_eq!(loop_action(CaptureState::Recording), LoopAction::Capture);
}

#[test]
fn idle_rate_after_threshold_without_window_change() {
    let mut t = ActivityTracker::new(0, 30);
    assert_eq!(t.observe("editor", 1_000), FrameRate::Active);
    assert_eq!(t.observe("editor", 31_000), FrameRate::Active); // exactly 30 s
    assert_eq!(t.observe("editor", 31_001), FrameRate::Idle);
    assert_eq!(t.observe("browser", 40_000), FrameRate::Active);
    assert_eq!(t.observe("browser", 60_000), FrameRate::Active);
}

#[test]
fn empty_first_title_counts_from_start() {
    let mut t = ActivityTracker::new(1_000, 1);
    assert_eq!(t.observe("", 2_001), FrameRate::Idle);
}

#[test]
fn frames_before_the_last_window_change_are_refused() {
    let mut t = ActivityTracker::new(5_000, 30);
    assert!(t.can_observe("editor", 4_000)); // a new title resets the clock
    assert_eq!(t.observe("editor", 6_000), FrameRate::Active);
    assert!(!t.can_observe("editor", 5_999));
    assert!(t.can_observe("editor", 6_000));
    assert!(t.can_observe("other", 0));
}
