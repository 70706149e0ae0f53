//! The parts of a GameCube executable (DOL) that the linker produces.
use vstd::prelude::*;

verus! {

/// A text or data section of a DOL: where it is loaded and what it holds.
pub struct Section {
    pub address: u32,
    pub data: Vec<u8>,
}

/// A DOL executable: its text and data sections, its zero-filled area and
/// its entry point.
pub struct DolFile {
    pub text_sections: Vec<Section>,
    pub data_sections: Vec<Section>,
    pub bss_address: u32,
    pub bss_size: u32,
    pub entry_point: u32,
}

} // verus!
