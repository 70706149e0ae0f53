//! Where the player enters a stage.
pub mod entrance;
