//! The settings of a hack (`RomHack.toml`).
use super::assembler::{lit_int_value, parse_int_literal};
use vstd::prelude::*;

verus! {

/// The settings of a hack: its sources, what the build makes and how it
/// links.
pub struct Config {
    pub src: Src,
    pub build: Build,
    pub link: Link,
}

/// The sources: the hack's crate, the game's disc image, the static
/// libraries to link and the patch to assemble.
pub struct Src {
    pub src: String,
    pub iso: String,
    pub link: Vec<String>,
    pub patch: String,
}

/// What the build makes: the symbol map and the new disc image.
pub struct Build {
    pub map: String,
    pub iso: String,
}

/// How the hack links: its entry symbols and the address its code starts at
/// (an integer literal).
pub struct Link {
    pub entries: Vec<String>,
    pub base: String,
}

impl Link {
    /// The address the hack's code starts at: `base` read as a Rust integer
    /// literal and cut to its low 32 bits, or `None` where `base` is no such
    /// literal.
    pub fn base_address(&self) -> (r: Option<u32>)
        ensures
            match lit_int_value(self.base@) {
                Some(v) => r == Some(v as u32),
                None => r is None,
            },
    {
        match parse_int_literal(self.base.as_str()) {
            Some(v) => Some(v as u32),
            None => None,
        }
    }
}

} // verus!
