//! The decisions of the hack's replacement for the game's main loop. Each
//! frame the loop counts the frame, checks the heap every `check_frame`
//! frames, updates the memory card while the disc thread syncs with the
//! sound, and then runs the game's per-frame work and the hack's.
use vstd::prelude::*;

verus! {

/// One frame's decisions from the frame counter before it, the heap-check
/// interval (0: never) and the disc thread's sound-sync flag: the new frame
/// counter (wrapping at 2^32), whether to check the heap, and whether to
/// update the memory card.
pub fn frame_step(frame_count: u32, check_frame: u8, sync_with_sound: u8) -> (r: (u32, bool, bool))
    ensures
        r.0 == (if frame_count == u32::MAX { 0 } else { frame_count + 1 }),
        r.1 == (check_frame != 0 && r.0 % (check_frame as u32) == 0),
        r.2 == (sync_with_sound != 0),
{
    let next = frame_count.wrapping_add(1);
    let check_heap = match next.checked_rem(check_frame as u32) {
        Some(rest) => rest == 0,
        None => false,
    };
    (next, check_heap, sync_with_sound != 0)
}

} // verus!
