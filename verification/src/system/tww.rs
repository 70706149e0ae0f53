//! Values that The Wind Waker keeps at fixed addresses.
use vstd::prelude::*;

verus! {

/// Where the game reads the wind's direction from.
pub const WIND_ADDRESS: u32 = 0x803D894A;

/// A byte to write into the game's memory.
#[derive(Clone, Copy, PartialEq, Eq, Structural, Debug)]
pub struct MemoryWrite {
    pub address: u32,
    pub value: u8,
}

/// The write that sets the wind to blow in `direction` (one of the eight
/// directions): the game keeps it in the top three bits of the byte at
/// `WIND_ADDRESS`.
pub fn set_wind(direction: u8) -> (w: MemoryWrite)
    ensures
        w.address == WIND_ADDRESS,
        w.value == direction << 5u8,
{
    MemoryWrite { address: WIND_ADDRESS, value: direction << 5u8 }
}

} // verus!
