//! Waiting for buttons.
use crate::game::gamepad::{is_down, is_pressed, Buttons, GamePad, ALL_BUTTONS};
use vstd::prelude::*;

verus! {

/// Ready once the buttons of these bits are all held.
pub struct ButtonsDown(pub u16);

/// Ready once the buttons of these bits are all pressed in a frame.
pub struct ButtonsPressed(pub u16);

/// Waits until the buttons `buttons` are held.
pub fn buttons_down(buttons: u16) -> (r: ButtonsDown)
    ensures
        r.0 == buttons,
{
    ButtonsDown(buttons)
}

/// Waits until the buttons `buttons` are pressed.
pub fn buttons_pressed(buttons: u16) -> (r: ButtonsPressed)
    ensures
        r.0 == buttons,
{
    ButtonsPressed(buttons)
}

impl ButtonsDown {
    /// Whether the wait is over in a frame where the controller is `pad`.
    pub fn poll(&self, pad: &GamePad) -> (ready: bool)
        ensures
            ready == ((pad.buttons_down & ALL_BUTTONS) & (self.0 & ALL_BUTTONS) == self.0 & ALL_BUTTONS),
    {
        is_down(pad, Buttons::from_bits_truncate(self.0))
    }
}

impl ButtonsPressed {
    /// Whether the wait is over in a frame where the controller is `pad`.
    pub fn poll(&self, pad: &GamePad) -> (ready: bool)
        ensures
            ready == ((pad.buttons_pressed & ALL_BUTTONS) & (self.0 & ALL_BUTTONS) == self.0 & ALL_BUTTONS),
    {
        is_pressed(pad, Buttons::from_bits_truncate(self.0))
    }
}

} // verus!
