//! Waiting for a frame.
use vstd::prelude::*;

verus! {

/// Ready once the game's frame count reaches this frame.
pub struct DelayUntil(pub u32);

/// Waits until frame `frame`.
pub fn delay_until(frame: u32) -> (r: DelayUntil)
    ensures
        r.0 == frame,
{
    DelayUntil(frame)
}

/// Waits `frames` frames from the frame `frame_count`; the target frame wraps
/// around at 2^32, as the game's frame counter does.
pub fn delay_for(frame_count: u32, frames: u32) -> (r: DelayUntil)
    ensures
        r.0 == (frame_count + frames) % 0x1_0000_0000,
{
    DelayUntil(frame_count.wrapping_add(frames))
}

impl DelayUntil {
    /// Whether the wait is over when the frame count is `frame_count`.
    pub fn poll(&self, frame_count: u32) -> (ready: bool)
        ensures
            ready == (frame_count >= self.0),
    {
        frame_count >= self.0
    }
}

} // verus!
