//! The decisions of the VRChat session loop: which camera schema to ask for,
//! which schema reply is stale, when the avatar is rebuilt and when the info
//! that the UI reads is published again.
//!
//! The loop itself (the socket, the timers, the channels) performs the action
//! that `session_step` returns and hands the next event back.
use vstd::prelude::*;

use crate::text::{opt_chars, str_eq};
use crate::vrc::{camera_id_from_path, spec_camera_id, CAM_ID_PREFIX};

verus! {

broadcast use vstd::string::group_string_axioms;

/// What the session loop knows between two events.
#[derive(Debug, Clone)]
pub struct SessionState {
    /// The camera schema id that the avatar reports.
    pub camera_id: Option<String>,
    /// An avatar descriptor is loaded.
    pub has_avatar: bool,
    /// The UI info is out of date.
    pub dirty: bool,
}

/// The model of a session state.
pub struct SpecSessionState {
    pub camera_id: Option<Seq<char>>,
    pub has_avatar: bool,
    pub dirty: bool,
}

impl View for SessionState {
    type V = SpecSessionState;

    open spec fn view(&self) -> SpecSessionState {
        SpecSessionState { camera_id: opt_chars(self.camera_id), has_avatar: self.has_avatar, dirty: self.dirty }
    }
}

/// One thing that happens to the session.
#[derive(Debug)]
pub enum SessionEvent {
    /// An OSC message arrived on this address.
    Address(String),
    /// The avatar reported a camera id.
    CameraId(String),
    /// A new avatar descriptor, with the camera id that it carries.
    NewAvatar(Option<String>),
    /// The current avatar is to be built again.
    RebuildAvatar,
    /// A camera schema load finished; `loaded` when a usable schema came back.
    CameraSchema { id: String, loaded: bool },
    /// The game went away.
    Disconnected,
    /// The UI asks for the current info.
    InfoRequest,
}

/// What the loop does after an event.
#[derive(Debug)]
pub enum SessionAction {
    /// Nothing to do.
    Nothing,
    /// Load the camera schema with this id on a side task.
    RequestSchema(String),
    /// Drop every node and the camera, register the new avatar's nodes, and
    /// then, when given, load the camera schema with this id.
    Rebuild(Option<String>),
    /// Send the current avatar to the loop again.
    ResendAvatar,
    /// Bind the loaded camera schema.
    BindCamera,
    /// Stop the camera decoding.
    ClearCamera,
    /// The schema reply belongs to an old camera id; drop it.
    DropStale,
    /// Forget the avatar and the game's parameters and stop the camera.
    Disconnect,
    /// Publish the info to the UI.
    Publish,
}

/// The model of an action.
pub enum SpecSessionAction {
    Nothing,
    RequestSchema(Seq<char>),
    Rebuild(Option<Seq<char>>),
    ResendAvatar,
    BindCamera,
    ClearCamera,
    DropStale,
    Disconnect,
    Publish,
}

impl View for SessionAction {
    type V = SpecSessionAction;

    open spec fn view(&self) -> SpecSessionAction {
        match self {
            SessionAction::Nothing => SpecSessionAction::Nothing,
            SessionAction::RequestSchema(id) => SpecSessionAction::RequestSchema(id@),
            SessionAction::Rebuild(id) => SpecSessionAction::Rebuild(opt_chars(*id)),
            SessionAction::ResendAvatar => SpecSessionAction::ResendAvatar,
            SessionAction::BindCamera => SpecSessionAction::BindCamera,
            SessionAction::ClearCamera => SpecSessionAction::ClearCamera,
            SessionAction::DropStale => SpecSessionAction::DropStale,
            SessionAction::Disconnect => SpecSessionAction::Disconnect,
            SessionAction::Publish => SpecSessionAction::Publish,
        }
    }
}

/// A reported camera id: a new id is taken and its schema asked for; the id
/// already in use changes nothing.
pub open spec fn spec_report(s: SpecSessionState, id: Seq<char>) -> (SpecSessionState, SpecSessionAction) {
    if s.camera_id == Some(id) {
        (s, SpecSessionAction::Nothing)
    } else {
        (SpecSessionState { camera_id: Some(id), ..s }, SpecSessionAction::RequestSchema(id))
    }
}

/// The next state and the action for one event.
pub open spec fn spec_session_step(s: SpecSessionState, e: SessionEvent) -> (SpecSessionState, SpecSessionAction) {
    match e {
        SessionEvent::Address(addr) => match spec_camera_id(addr@, CAM_ID_PREFIX@) {
            Some(id) => spec_report(s, id),
            None => (s, SpecSessionAction::Nothing),
        },
        SessionEvent::CameraId(id) => spec_report(s, id@),
        SessionEvent::NewAvatar(cam) => {
            let camera_id = match cam {
                Some(id) => Some(id@),
                None => s.camera_id,
            };
            (
                SpecSessionState { camera_id, has_avatar: true, dirty: true },
                SpecSessionAction::Rebuild(opt_chars(cam)),
            )
        },
        SessionEvent::RebuildAvatar => if s.has_avatar {
            (s, SpecSessionAction::ResendAvatar)
        } else {
            (s, SpecSessionAction::Nothing)
        },
        SessionEvent::CameraSchema { id, loaded } => if s.camera_id != Some(id@) {
            (s, SpecSessionAction::DropStale)
        } else if loaded {
            (SpecSessionState { dirty: true, ..s }, SpecSessionAction::BindCamera)
        } else {
            (SpecSessionState { dirty: true, ..s }, SpecSessionAction::ClearCamera)
        },
        SessionEvent::Disconnected => (
            SpecSessionState { camera_id: None, has_avatar: false, dirty: true },
            SpecSessionAction::Disconnect,
        ),
        SessionEvent::InfoRequest => if s.dirty {
            (SpecSessionState { dirty: false, ..s }, SpecSessionAction::Publish)
        } else {
            (s, SpecSessionAction::Nothing)
        },
    }
}

/// The current camera id is `id`.
fn holds_id(current: &Option<String>, id: &str) -> (res: bool)
    ensures
        res == (opt_chars(*current) == Some(id@)),
{
    match current {
        Some(c) => str_eq(c.as_str(), id),
        None => false,
    }
}

/// Handles a reported camera id.
fn report(state: SessionState, id: &str) -> (res: (SessionState, SessionAction))
    ensures
        (res.0@, res.1@) == spec_report(state@, id@),
{
    if holds_id(&state.camera_id, id) {
        (state, SessionAction::Nothing)
    } else {
        let owned = id.to_owned();
        let next = SessionState { camera_id: Some(id.to_owned()), has_avatar: state.has_avatar, dirty: state.dirty };
        (next, SessionAction::RequestSchema(owned))
    }
}

/// One step of the session loop: the next state and what to do.
pub fn session_step(state: SessionState, event: SessionEvent) -> (res: (SessionState, SessionAction))
    ensures
        (res.0@, res.1@) == spec_session_step(state@, event),
{
    match event {
        SessionEvent::Address(addr) => match camera_id_from_path(addr.as_str()) {
            Some(id) => report(state, id),
            None => (state, SessionAction::Nothing),
        },
        SessionEvent::CameraId(id) => report(state, id.as_str()),
        SessionEvent::NewAvatar(cam) => {
            let camera_id = match &cam {
                Some(id) => Some(id.clone()),
                None => state.camera_id,
            };
            (SessionState { camera_id, has_avatar: true, dirty: true }, SessionAction::Rebuild(cam))
        },
        SessionEvent::RebuildAvatar => {
            if state.has_avatar {
                (state, SessionAction::ResendAvatar)
            } else {
                (state, SessionAction::Nothing)
            }
        },
        SessionEvent::CameraSchema { id, loaded } => {
            if !holds_id(&state.camera_id, id.as_str()) {
                (state, SessionAction::DropStale)
            } else {
                let next = SessionState { camera_id: state.camera_id, has_avatar: state.has_avatar, dirty: true };
                if loaded {
                    (next, SessionAction::BindCamera)
                } else {
                    (next, SessionAction::ClearCamera)
                }
            }
        },
        SessionEvent::Disconnected => (
            SessionState { camera_id: None, has_avatar: false, dirty: true },
            SessionAction::Disconnect,
        ),
        SessionEvent::InfoRequest => {
            if state.dirty {
                let next = SessionState { camera_id: state.camera_id, has_avatar: state.has_avatar, dirty: false };
                (next, SessionAction::Publish)
            } else {
                (state, SessionAction::Nothing)
            }
        },
    }
}

/// What the once-a-second check does with one watched address.
#[derive(Debug, Clone, Copy, PartialEq, Eq, Structural)]
pub enum DropCheck {
    /// The camera drives the address and decoded a change: the address is
    /// alive; its time becomes now.
    Refresh,
    /// No value came for over a second: its targets fall back to zero and its
    /// time becomes now.
    Reset,
    /// Nothing to do.
    Keep,
}

/// The camera decoded something since the last check: its activity count
/// moved.
pub fn camera_alive(activity: u64, last_activity: u64) -> (res: bool)
    ensures
        res == (activity != last_activity),
{
    activity != last_activity
}

/// Checks one watched address. A camera-driven address gets no OSC traffic,
/// so while the camera is alive it counts as fresh; any other address whose
/// last value is over a second old (`elapsed_ms`) is reset.
pub fn drop_check(camera_driven: bool, camera_alive: bool, elapsed_ms: u64) -> (res: DropCheck)
    ensures
        camera_driven && camera_alive ==> res == DropCheck::Refresh,
        !(camera_driven && camera_alive) && elapsed_ms > 1000 ==> res == DropCheck::Reset,
        !(camera_driven && camera_alive) && elapsed_ms <= 1000 ==> res == DropCheck::Keep,
{
    if camera_driven && camera_alive {
        DropCheck::Refresh
    } else if elapsed_ms > 1000 {
        DropCheck::Reset
    } else {
        DropCheck::Keep
    }
}

/// A schema reply is bound only for the camera id in use: once a different id
/// is reported, a reply for the old id is dropped, whatever it holds.
pub proof fn lemma_stale_reply_dropped(s: SpecSessionState, new_id: String, old_id: String, loaded: bool)
    requires
        new_id@ != old_id@,
    ensures
        spec_session_step(
            spec_session_step(s, SessionEvent::CameraId(new_id)).0,
            SessionEvent::CameraSchema { id: old_id, loaded },
        ).1 == SpecSessionAction::DropStale,
{
}

/// The same camera id reported twice asks for its schema once.
pub proof fn lemma_report_once(s: SpecSessionState, first: String, again: String)
    requires
        first@ == again@,
    ensures
        spec_session_step(spec_session_step(s, SessionEvent::CameraId(first)).0, SessionEvent::CameraId(again)).1
            == SpecSessionAction::Nothing,
{
}

/// After the game goes away no schema reply is bound.
pub proof fn lemma_no_bind_after_disconnect(s: SpecSessionState, id: String, loaded: bool)
    ensures
        spec_session_step(spec_session_step(s, SessionEvent::Disconnected).0, SessionEvent::CameraSchema { id, loaded }).1
            == SpecSessionAction::DropStale,
{
}

} // verus!
