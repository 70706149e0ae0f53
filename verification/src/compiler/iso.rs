//! The file system of GameCube disc images.
pub mod virtual_file_system;
pub mod reader;
