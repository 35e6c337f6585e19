//! The engine's lifecycle: idle until started, running frames until the
//! done flag is seen at the end of a frame, draining while the barriers are
//! released and the logic thread is joined, then stopped.

use vstd::prelude::*;

verus! {

#[derive(Clone, Copy, PartialEq, Eq, Debug, Structural)]
pub enum EngineState {
    Idle,
    Running,
    Draining,
    Stopped,
}

#[derive(Clone, Copy, PartialEq, Eq, Debug, Structural)]
pub enum LifecycleEvent {
    /// The frame loop starts.
    Started,
    /// A frame completed; the flag says whether the done flag was set.
    FrameFinished(bool),
    /// The logic thread has exited and was joined.
    LogicThreadJoined,
}

pub open spec fn lifecycle_next(s: EngineState, e: LifecycleEvent) -> EngineState {
    match (s, e) {
        (EngineState::Idle, LifecycleEvent::Started) => EngineState::Running,
        (EngineState::Running, LifecycleEvent::FrameFinished(done)) => if done {
            EngineState::Draining
        } else {
            EngineState::Running
        },
        (EngineState::Draining, LifecycleEvent::LogicThreadJoined) => EngineState::Stopped,
        _ => s,
    }
}

/// The state after `e`; an event that does not fit the state changes
/// nothing.
pub fn next_state(s: EngineState, e: LifecycleEvent) -> (r: EngineState)
    ensures
        r == lifecycle_next(s, e),
{
    match (s, e) {
        (EngineState::Idle, LifecycleEvent::Started) => EngineState::Running,
        (EngineState::Running, LifecycleEvent::FrameFinished(done)) => if done {
            EngineState::Draining
        } else {
            EngineState::Running
        },
        (EngineState::Draining, LifecycleEvent::LogicThreadJoined) => EngineState::Stopped,
        _ => s,
    }
}

/// Frames run only while running.
pub fn runs_frames(s: EngineState) -> (r: bool)
    ensures
        r == (s == EngineState::Running),
{
    s == EngineState::Running
}

/// While draining, both barriers are force-released so that a party that
/// waits for a partner that will not come goes on.
pub fn releases_barriers(s: EngineState) -> (r: bool)
    ensures
        r == (s == EngineState::Draining),
{
    s == EngineState::Draining
}

} // verus!
