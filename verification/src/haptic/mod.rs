pub mod bhaptics;
pub mod mapping;
pub mod query;
pub mod game;
pub mod project;
