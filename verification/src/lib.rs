pub mod compiler;
pub mod futures;
pub mod game;
pub mod link;
pub mod system;
pub mod text;
pub mod warping;
