//! The GameCube graphics interface (GX).
use vstd::prelude::*;

verus! {

/// Ends a primitive that `begin` started; on the GameCube this has nothing
/// to do.
pub fn end() {
}

/// A texture object of the graphics interface: eight words that the
/// interface fills in.
pub struct TexObj {
    pub val: [u32; 8],
}

impl Default for TexObj {
    fn default() -> (r: TexObj)
        ensures
            forall|i: int| 0 <= i < 8 ==> r.val@[i] == 0,
    {
        TexObj { val: [0u32; 8] }
    }
}

} // verus!
