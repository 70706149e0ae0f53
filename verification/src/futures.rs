//! Conditions that the hack's scripts wait for, frame after frame: buttons
//! held or pressed, or a frame reached.
pub mod buttons;
pub mod delay;

pub use self::buttons::{buttons_down, buttons_pressed, ButtonsDown, ButtonsPressed};
pub use self::delay::{delay_for, delay_until, DelayUntil};
