pub mod api;
pub mod devices;
pub mod file;
pub mod haptic;
pub mod mapping;
pub mod migrate;
pub mod network;
pub mod osc;
pub mod state;
pub mod text;
pub mod vrc;
