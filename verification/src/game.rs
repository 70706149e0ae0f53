//! The game's state as the hack reads it.
pub mod gamepad;
