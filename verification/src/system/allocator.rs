//! The decision behind the hack's reallocation on the game's archive heap.
//! Freeing a block does not depend on its size, so a block that is large
//! enough can be kept; memory is scarce, so a block is still moved when it
//! would shrink by a significant amount.
use vstd::prelude::*;

verus! {

/// By how many bytes a block must shrink before it is moved to a smaller one.
pub const SHRINK_THRESHOLD: usize = 32;

/// What reallocating a block does.
#[derive(Clone, Copy, PartialEq, Eq, Structural, Debug)]
pub enum Reallocation {
    /// The block stays where it is.
    Keep,
    /// A new block is allocated, the first `copy` bytes are copied into it and
    /// the old block is freed.
    Move { copy: usize },
}

/// The plan for reallocating a block of `old_size` bytes to `size` bytes:
/// move it when it must grow or would shrink by at least
/// `SHRINK_THRESHOLD` bytes, copying what both sizes hold; keep it otherwise.
pub fn reallocation(size: usize, old_size: usize) -> (r: Reallocation)
    ensures
        r == (if size > old_size || old_size - size >= SHRINK_THRESHOLD {
            Reallocation::Move { copy: if size < old_size { size } else { old_size } }
        } else {
            Reallocation::Keep
        }),
{
    if size > old_size || old_size - size >= SHRINK_THRESHOLD {
        Reallocation::Move { copy: if size < old_size { size } else { old_size } }
    } else {
        Reallocation::Keep
    }
}

} // verus!
