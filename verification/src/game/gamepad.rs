//! The buttons of the GameCube controller.
use vstd::prelude::*;

verus! {

/// A set of buttons, one bit each (the bits of the constants below).
#[derive(Clone, Copy, PartialEq, Eq, Structural, Debug, Hash)]
pub struct Buttons {
    bits: u16,
}

pub const DPAD_LEFT: u16 = 0x0001;

pub const DPAD_RIGHT: u16 = 0x0002;

pub const DPAD_DOWN: u16 = 0x0004;

pub const DPAD_UP: u16 = 0x0008;

pub const Z: u16 = 0x0010;

pub const R: u16 = 0x0020;

pub const L: u16 = 0x0040;

pub const A: u16 = 0x0100;

pub const B: u16 = 0x0200;

pub const X: u16 = 0x0400;

pub const Y: u16 = 0x0800;

pub const START: u16 = 0x1000;

/// The bits that stand for a button.
pub const ALL_BUTTONS: u16 = 0x1F7F;

impl View for Buttons {
    type V = u16;

    closed spec fn view(&self) -> u16 {
        self.bits
    }
}

impl Buttons {
    /// Every bit of a set of buttons stands for a button.
    #[verifier::type_invariant]
    spec fn known_buttons(self) -> bool {
        self.bits & ALL_BUTTONS == self.bits
    }

    /// The buttons of the bits `bits`, the bits that stand for no button
    /// dropped.
    pub fn from_bits_truncate(bits: u16) -> (r: Buttons)
        ensures
            r@ == bits & ALL_BUTTONS,
    {
        assert((bits & 0x1F7Fu16) & 0x1F7Fu16 == bits & 0x1F7Fu16) by (bit_vector);
        Buttons { bits: bits & ALL_BUTTONS }
    }

    /// The bits of these buttons, each of which stands for a button.
    pub fn bits(&self) -> (r: u16)
        ensures
            r == self@,
            r & ALL_BUTTONS == r,
    {
        proof {
            use_type_invariant(self);
        }
        self.bits
    }

    /// Whether these buttons include all of `other`.
    pub fn contains(&self, other: Buttons) -> (r: bool)
        ensures
            r == (self@ & other@ == other@),
    {
        self.bits & other.bits == other.bits
    }

    /// Whether these buttons include any of `other`.
    pub fn intersects(&self, other: Buttons) -> (r: bool)
        ensures
            r == (self@ & other@ != 0),
    {
        self.bits & other.bits != 0
    }
}

/// The state of the controller as the game keeps it: the buttons held and
/// the buttons pressed in this frame.
pub struct GamePad {
    pub buttons_down: u16,
    pub buttons_pressed: u16,
}

/// The buttons held.
pub fn buttons_down(pad: &GamePad) -> (r: Buttons)
    ensures
        r@ == pad.buttons_down & ALL_BUTTONS,
{
    Buttons::from_bits_truncate(pad.buttons_down)
}

/// The buttons pressed in this frame.
pub fn buttons_pressed(pad: &GamePad) -> (r: Buttons)
    ensures
        r@ == pad.buttons_pressed & ALL_BUTTONS,
{
    Buttons::from_bits_truncate(pad.buttons_pressed)
}

/// Whether all of `buttons` are held.
pub fn is_down(pad: &GamePad, buttons: Buttons) -> (r: bool)
    ensures
        r == ((pad.buttons_down & ALL_BUTTONS) & buttons@ == buttons@),
{
    buttons_down(pad).contains(buttons)
}

/// Whether all of `buttons` are pressed in this frame.
pub fn is_pressed(pad: &GamePad, buttons: Buttons) -> (r: bool)
    ensures
        r == ((pad.buttons_pressed & ALL_BUTTONS) & buttons@ == buttons@),
{
    buttons_pressed(pad).contains(buttons)
}

/// Whether any of `buttons` is held.
pub fn is_any_down(pad: &GamePad, buttons: Buttons) -> (r: bool)
    ensures
        r == ((pad.buttons_down & ALL_BUTTONS) & buttons@ != 0),
{
    buttons_down(pad).intersects(buttons)
}

/// Whether any of `buttons` is pressed in this frame.
pub fn is_any_pressed(pad: &GamePad, buttons: Buttons) -> (r: bool)
    ensures
        r == ((pad.buttons_pressed & ALL_BUTTONS) & buttons@ != 0),
{
    buttons_pressed(pad).intersects(buttons)
}

/// Holding (or pressing) all of a non-empty set of buttons means holding
/// (or pressing) one of them: where `is_down` holds, so does `is_any_down`,
/// and likewise for `is_pressed` and `is_any_pressed`.
pub proof fn lemma_all_implies_any(state: u16, buttons: Buttons)
    requires
        buttons@ != 0,
    ensures
        ((state & ALL_BUTTONS) & buttons@ == buttons@) ==> ((state & ALL_BUTTONS) & buttons@ != 0),
{
}

} // verus!
