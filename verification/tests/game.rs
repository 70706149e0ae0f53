use romhack::system::allocator::{reallocation, Reallocation};
use romhack::system::game_loop::frame_step;
use romhack::futures::{buttons_down, buttons_pressed, delay_for, delay_until};
use romhack::game::gamepad::{
    self, is_any_down, is_any_pressed, is_down, is_pressed, Buttons, GamePad, A, B, START, Z,
};
use romhack::link::item::{item_id_to_str, BOW, EMPTY, HEART_DROP, TRIFORCE_PIECE_8};
use romhack::system::gx;
use romhack::system::gx::TexObj;
use romhack::system::j2d::Color;
use romhack::system::tww::{set_wind, WIND_ADDRESS};
use romhack::warping::entrance::Entrance;

#[test]
fn buttons_drop_unknown_bits() {
    assert_eq!(Buttons::from_bits_truncate(0xffff).bits(), 0x1f7f);
    assert_eq!(Buttons::from_bits_truncate(0x0080).bits(), 0);
}

#[test]
fn held_and_pressed_buttons() {
    let pad = GamePad { buttons_down: A | B | 0x8000, buttons_pressed: START };
    assert!(is_down(&pad, Buttons::from_bits_truncate(A | B)));
    assert!(!is_down(&pad, Buttons::from_bits_truncate(A | Z)));
    assert!(is_any_down(&pad, Buttons::from_bits_truncate(A | Z)));
    assert!(!is_any_down(&pad, Buttons::from_bits_truncate(Z)));
    assert!(is_pressed(&pad, Buttons::from_bits_truncate(START)));
    assert!(!is_any_pressed(&pad, Buttons::from_bits_truncate(A)));
    assert_eq!(gamepad::buttons_down(&pad).bits(), A | B);
    assert_eq!(gamepad::buttons_pressed(&pad).bits(), START);
}

#[test]
fn holding_all_means_holding_any() {
    let pad = GamePad { buttons_down: A | START, buttons_pressed: 0 };
    let wanted = Buttons::from_bits_truncate(A | START);
    assert!(is_down(&pad, wanted) && is_any_down(&pad, wanted));
}

#[test]
fn waiting_for_buttons() {
    let pad = GamePad { buttons_down: A, buttons_pressed: B };
    assert!(buttons_down(A).poll(&pad));
    assert!(!buttons_down(A | B).poll(&pad));
    assert!(buttons_pressed(B).poll(&pad));
    assert!(!buttons_pressed(A).poll(&pad));
}

#[test]
fn waiting_for_frames() {
    let wait = delay_until(100);
    assert!(!wait.poll(99));
    assert!(wait.poll(100));
    assert_eq!(delay_for(10, 5).0, 15);
    assert!(delay_for(10, 5).poll(15));
    assert_eq!(delay_for(u32::MAX, 2).0, 1);
}

#[test]
fn item_names() {
    assert_eq!(item_id_to_str(HEART_DROP), "Heart Drop");
    assert_eq!(item_id_to_str(BOW), "Bow");
    assert_eq!(item_id_to_str(TRIFORCE_PIECE_8), "Triforce Piece 8");
    assert_eq!(item_id_to_str(EMPTY), "");
    assert_eq!(item_id_to_str(0x0C), "???");
}

#[test]
fn wind_sits_in_the_top_bits() {
    let w = set_wind(3);
    assert_eq!(w.address, WIND_ADDRESS);
    assert_eq!(w.value, 0x60);
    assert_eq!(set_wind(7).value, 0xE0);
    assert_eq!(set_wind(9).value, 0x20);
}

#[test]
fn stage_name_ends_at_zero() {
    let e = Entrance { stage: *b"sea\0\0\0\0\0", entrance: 1, room: 2 };
    assert_eq!(e.stage_name(), Some("sea"));
    let full = Entrance { stage: *b"M_NewD2X", entrance: 0, room: 0 };
    assert_eq!(full.stage_name(), Some("M_NewD2X"));
    let bad = Entrance { stage: [0xff, 0, 0, 0, 0, 0, 0, 0], entrance: 0, room: 0 };
    assert_eq!(bad.stage_name(), None);
}

#[test]
fn graphics_defaults() {
    gx::end();
    let t = TexObj::default();
    assert_eq!(t.val, [0u32; 8]);
    let c = Color { rgba: 0xff00ffff };
    assert_eq!(c.rgba, 0xff00ffff);
}

#[test]
fn game_loop_counts_frames_and_checks_the_heap() {
    assert_eq!(frame_step(9, 5, 0), (10, true, false));
    assert_eq!(frame_step(10, 5, 1), (11, false, true));
    assert_eq!(frame_step(u32::MAX, 3, 0), (0, true, false));
    assert_eq!(frame_step(4, 0, 0), (5, false, false));
}

#[test]
fn reallocation_keeps_blocks_that_shrink_a_little() {
    assert_eq!(reallocation(64, 32), Reallocation::Move { copy: 32 });
    assert_eq!(reallocation(40, 64), Reallocation::Keep);
    assert_eq!(reallocation(32, 64), Reallocation::Move { copy: 32 });
    assert_eq!(reallocation(64, 64), Reallocation::Keep);
}
