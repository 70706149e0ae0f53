//! The player character and what it carries.
pub mod item;
