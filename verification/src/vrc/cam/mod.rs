pub mod algo;
pub mod center;
pub mod ffi;
pub mod grid;

use vstd::prelude::*;

verus! {

/// How often the camera is polled: often while it shows the code, seldom
/// while it does not.
#[derive(Debug, Clone, Copy, PartialEq, Eq, Structural)]
pub enum State {
    Hot,
    Cold,
}

/// The milliseconds between two polls of the camera in a state.
pub open spec fn spec_poll_period_ms(state: State) -> u64 {
    match state {
        State::Hot => 2,
        State::Cold => 1000,
    }
}

/// The milliseconds between two polls of the camera in a state.
pub fn poll_period_ms(state: State) -> (res: u64)
    ensures
        res == spec_poll_period_ms(state),
{
    match state {
        State::Hot => 2,
        State::Cold => 1000,
    }
}

/// What one poll of the frame receiver found.
#[derive(Debug, Clone, Copy, PartialEq, Eq, Structural)]
pub enum SpoutPoll {
    /// The receiver reported an error.
    Failed,
    /// No sender is connected.
    NotConnected,
    /// The sender changed, and now has this size.
    Updated { width: u32, height: u32 },
    /// Connected, with no new frame since the last poll.
    NoNewFrame,
    /// A new frame is in the image buffer.
    NewFrame,
}

/// What the receiver loop does after a poll.
#[derive(Debug, Clone, Copy, PartialEq, Eq, Structural)]
pub enum SpoutAction {
    /// Wait for the next tick.
    Wait,
    /// Resize the decoder to the sender's new size.
    Resize { width: u32, height: u32 },
    /// Decode the new frame.
    Decode,
}

/// The state of the receiver loop.
#[derive(Debug, Clone, Copy, PartialEq, Eq, Structural)]
pub struct SpoutState {
    /// The polling rate.
    pub state: State,
    /// A sender has been seen since the loop started.
    pub seen_sender: bool,
    /// The decoded values are current.
    pub active: bool,
}

/// The loop state at its start: polling slowly, nothing seen yet.
pub fn spout_start() -> (res: SpoutState)
    ensures
        res == (SpoutState { state: State::Cold, seen_sender: false, active: false }),
{
    SpoutState { state: State::Cold, seen_sender: false, active: false }
}

/// The next loop state and action after one poll.
pub open spec fn spec_spout_poll(s: SpoutState, poll: SpoutPoll) -> (SpoutState, SpoutAction) {
    match poll {
        SpoutPoll::Failed => (SpoutState { state: State::Cold, active: false, ..s }, SpoutAction::Wait),
        SpoutPoll::NotConnected => (SpoutState { state: State::Cold, ..s }, SpoutAction::Wait),
        SpoutPoll::Updated { width, height } => if width == 0 || height == 0 {
            (SpoutState { state: State::Cold, seen_sender: true, active: false }, SpoutAction::Wait)
        } else {
            (SpoutState { seen_sender: true, ..s }, SpoutAction::Resize { width, height })
        },
        SpoutPoll::NoNewFrame => (SpoutState { seen_sender: true, ..s }, SpoutAction::Wait),
        SpoutPoll::NewFrame => (SpoutState { seen_sender: true, ..s }, SpoutAction::Decode),
    }
}

/// One poll of the receiver loop: an error or a missing sender slows the
/// polling; an empty sender size also marks the values stale; a new size
/// resizes the decoder; a new frame is decoded.
pub fn spout_poll(s: SpoutState, poll: SpoutPoll) -> (res: (SpoutState, SpoutAction))
    ensures
        res == spec_spout_poll(s, poll),
{
    match poll {
        SpoutPoll::Failed => (SpoutState { state: State::Cold, seen_sender: s.seen_sender, active: false }, SpoutAction::Wait),
        SpoutPoll::NotConnected => (SpoutState { state: State::Cold, seen_sender: s.seen_sender, active: s.active }, SpoutAction::Wait),
        SpoutPoll::Updated { width, height } => {
            if width == 0 || height == 0 {
                (SpoutState { state: State::Cold, seen_sender: true, active: false }, SpoutAction::Wait)
            } else {
                (SpoutState { state: s.state, seen_sender: true, active: s.active }, SpoutAction::Resize { width, height })
            }
        },
        SpoutPoll::NoNewFrame => (SpoutState { state: s.state, seen_sender: true, active: s.active }, SpoutAction::Wait),
        SpoutPoll::NewFrame => (SpoutState { state: s.state, seen_sender: true, active: s.active }, SpoutAction::Decode),
    }
}

/// After a decode: a frame that carried values makes the polling fast and the
/// values current, and is published (the result is `true`); any other frame
/// changes nothing.
pub fn spout_decoded(s: SpoutState, has_values: bool) -> (res: (SpoutState, bool))
    ensures
        res.1 == has_values,
        has_values ==> res.0 == (SpoutState { state: State::Hot, active: true, ..s }),
        !has_values ==> res.0 == s,
{
    if has_values {
        (SpoutState { state: State::Hot, seen_sender: s.seen_sender, active: true }, true)
    } else {
        (s, false)
    }
}

/// A receiver error always leaves the loop polling slowly with stale values,
/// whatever state it was in.
pub proof fn lemma_failure_cools(s: SpoutState)
    ensures
        spec_spout_poll(s, SpoutPoll::Failed).0.state == State::Cold,
        !spec_spout_poll(s, SpoutPoll::Failed).0.active,
        spec_spout_poll(s, SpoutPoll::Failed).1 == SpoutAction::Wait,
{
}

/// A snapshot of the camera path for the UI.
#[derive(Debug, Clone, Copy, PartialEq, Eq, Structural)]
pub struct CameraInfo {}

impl Default for CameraInfo {
    fn default() -> (res: Self) {
        CameraInfo {}
    }
}

/// The counters that the decode thread writes and the UI reads.
#[derive(Debug, Clone, Copy, PartialEq, Eq, Structural)]
pub struct CameraStats {}

impl Default for CameraStats {
    fn default() -> (res: Self) {
        CameraStats {}
    }
}

} // verus!
