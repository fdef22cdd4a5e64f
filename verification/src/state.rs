//! Plain settings records of the persisted application state.
use vstd::prelude::*;

verus! {

/// Which services the server starts.
#[derive(Debug, Clone, Copy, PartialEq, Eq, Structural)]
pub struct ServerSettings {
    pub enable_websocket_devices: bool,
    pub enable_vrc: bool,
    pub enable_ble_bhaptic: bool,
    pub enable_bhaptic_game: bool,
    pub enable_wifi_vrch: bool,
}

/// A repository of firmware updates.
#[derive(Debug, Clone)]
pub struct GitRepo {
    pub owner: String,
    pub name: String,
}

/// The settings that only the front end needs.
#[derive(Debug, Clone)]
pub struct UiSettings {
    pub theme: String,
}

impl Default for UiSettings {
    /// The dark theme.
    fn default() -> (res: Self)
        ensures
            res.theme@ == "dark"@,
    {
        UiSettings { theme: String::from_str("dark") }
    }
}

} // verus!
