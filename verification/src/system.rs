//! Bindings to the game's own systems: graphics, 2D drawing and the game's
//! global state.
pub mod gx;
pub mod j2d;
pub mod tww;
pub mod game_loop;
pub mod allocator;
