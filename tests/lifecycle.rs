use oe_core::lifecycle::{next_state, releases_barriers, runs_frames, EngineState, LifecycleEvent};

#[test]
fn lifecycle_runs_then_drains_then_stops() {
    let mut s = EngineState::Idle;
    assert!(!runs_frames(s));
    s = next_state(s, LifecycleEvent::Started);
    assert_eq!(s, EngineState::Running);
    assert!(runs_frames(s));
    s = next_state(s, LifecycleEvent::FrameFinished(false));
    assert_eq!(s, EngineState::Running);
    s = next_state(s, LifecycleEvent::FrameFinished(true));
    assert_eq!(s, EngineState::Draining);
    assert!(releases_barriers(s));
    assert!(!runs_frames(s));
    s = next_state(s, LifecycleEvent::LogicThreadJoined);
    assert_eq!(s, EngineState::Stopped);
    assert!(!releases_barriers(s));
}

#[test]
fn lifecycle_ignores_events_out_of_turn() {
    assert_eq!(next_state(EngineState::Idle, LifecycleEvent::LogicThreadJoined), EngineState::Idle);
    assert_eq!(next_state(EngineState::Idle, LifecycleEvent::FrameFinished(true)), EngineState::Idle);
    assert_eq!(next_state(EngineState::Running, LifecycleEvent::Started), EngineState::Running);
    assert_eq!(next_state(EngineState::Stopped, LifecycleEvent::Started), EngineState::Stopped);
}
