use abura::input::ButtonState;
use abura::{GamepadState, InputState, KeyboardState, MouseState};

const SPACE: u32 = 32;
const ENTER: u32 = 13;
const MOUSE_LEFT: u32 = 0;

#[test]
fn just_pressed_only_fires_on_first_frame() {
    let mut kb = KeyboardState::default();
    kb.press(SPACE);
    assert!(kb.just_pressed(SPACE));
    kb.end_frame();
    assert!(!kb.just_pressed(SPACE));
    assert!(kb.is_pressed(SPACE)); // still held
}

#[test]
fn just_released_fires_on_release_frame_only() {
    let mut kb = KeyboardState::default();
    kb.press(SPACE);
    kb.end_frame();
    kb.release(SPACE);
    assert!(kb.just_released(SPACE));
    assert!(!kb.is_pressed(SPACE));
    kb.end_frame();
    assert!(!kb.just_released(SPACE));
}

#[test]
fn mouse_just_pressed_fires_once() {
    let mut mouse = MouseState::default();
    mouse.press(MOUSE_LEFT);
    assert!(mouse.just_pressed(MOUSE_LEFT));
    mouse.end_frame();
    mouse.press(MOUSE_LEFT);
    assert!(
        !mouse.just_pressed(MOUSE_LEFT),
        "just_pressed must not fire again when already held"
    );
}

#[test]
fn keys_are_independent() {
    let mut kb = KeyboardState::default();
    kb.press(SPACE);
    assert!(!kb.is_pressed(ENTER));
    assert!(!kb.just_pressed(ENTER));
    kb.press(ENTER);
    kb.release(SPACE);
    assert!(kb.is_pressed(ENTER));
    assert!(kb.just_pressed(ENTER));
    assert!(kb.just_pressed(SPACE)); // pressed earlier this frame
    assert!(kb.just_released(SPACE));
    assert!(!kb.just_released(ENTER));
}

#[test]
fn release_without_press_counts_as_released() {
    let mut mouse = MouseState::default();
    mouse.release(MOUSE_LEFT);
    assert!(mouse.just_released(MOUSE_LEFT));
    assert!(!mouse.is_pressed(MOUSE_LEFT));
    mouse.end_frame();
    assert!(!mouse.just_released(MOUSE_LEFT));
}

#[test]
fn press_after_release_fires_again() {
    let mut kb = KeyboardState::default();
    kb.press(SPACE);
    kb.end_frame();
    kb.release(SPACE);
    kb.end_frame();
    kb.press(SPACE);
    assert!(kb.just_pressed(SPACE));
}

#[test]
fn button_state_end_frame_twice_is_end_frame_once() {
    let mut b = ButtonState::new();
    b.press(5);
    b.end_frame();
    b.end_frame();
    assert!(b.is_pressed(5));
    assert!(!b.just_pressed(5));
    assert!(!b.just_released(5));
}

#[test]
fn gamepad_button_pressed_reads_the_set() {
    let mut pad = GamepadState::default();
    assert!(!pad.button_pressed(3));
    pad.buttons.insert(3);
    assert!(pad.button_pressed(3));
    assert!(!pad.button_pressed(4));
}

#[test]
fn input_end_frame_clears_keyboard_and_mouse_events_only() {
    let mut input = InputState::default();
    input.keyboard.press(SPACE);
    input.mouse.press(MOUSE_LEFT);
    input.gamepad.buttons.insert(1);
    input.end_frame();
    assert!(!input.keyboard.just_pressed(SPACE));
    assert!(input.keyboard.is_pressed(SPACE));
    assert!(!input.mouse.just_pressed(MOUSE_LEFT));
    assert!(input.mouse.is_pressed(MOUSE_LEFT));
    assert!(input.gamepad.button_pressed(1));
}
