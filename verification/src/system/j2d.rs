//! The game's 2D drawing library (J2D).
use vstd::prelude::*;

verus! {

/// A color, its red, green, blue and alpha bytes in one word.
#[derive(Clone, Copy, PartialEq, Eq, Structural, Debug)]
pub struct Color {
    pub rgba: u32,
}

} // verus!
