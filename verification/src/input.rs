use std::collections::HashSet;
use vstd::prelude::*;

verus! {

broadcast use vstd::std_specs::hash::group_hash_axioms;

/// The abstract state of a set of buttons (keys or mouse buttons), each
/// named by a numeric code.
#[verifier::ext_equal]
pub struct ButtonsView {
    /// Buttons currently held down.
    pub held: Set<u32>,
    /// Buttons that went down during the current frame.
    pub pressed_now: Set<u32>,
    /// Buttons that were released during the current frame.
    pub released_now: Set<u32>,
}

impl ButtonsView {
    /// No button held, nothing happened this frame.
    pub open spec fn empty() -> ButtonsView {
        ButtonsView { held: Set::empty(), pressed_now: Set::empty(), released_now: Set::empty() }
    }

    /// A press event: a button that is not held becomes held and counts as
    /// pressed this frame; a press of a button already held changes nothing.
    pub open spec fn press(self, b: u32) -> ButtonsView {
        if self.held.contains(b) {
            self
        } else {
            ButtonsView {
                held: self.held.insert(b),
                pressed_now: self.pressed_now.insert(b),
                released_now: self.released_now,
            }
        }
    }

    /// A release event: the button is no longer held and counts as released
    /// this frame.
    pub open spec fn release(self, b: u32) -> ButtonsView {
        ButtonsView {
            held: self.held.remove(b),
            pressed_now: self.pressed_now,
            released_now: self.released_now.insert(b),
        }
    }

    /// The end of a frame: the per-frame events are forgotten, held buttons
    /// stay held.
    pub open spec fn end_frame(self) -> ButtonsView {
        ButtonsView { held: self.held, pressed_now: Set::empty(), released_now: Set::empty() }
    }
}

/// A press of a button that is not held fires "pressed this frame".
pub proof fn lemma_press_fires(v: ButtonsView, b: u32)
    requires
        !v.held.contains(b),
    ensures
        v.press(b).pressed_now.contains(b),
        v.press(b).held.contains(b),
{
}

/// "Pressed this frame" fires only on the first frame: after the frame ends,
/// a repeated press of the still-held button does not fire it again.
pub proof fn lemma_pressed_fires_once(v: ButtonsView, b: u32)
    ensures
        v.press(b).end_frame().held.contains(b),
        !v.press(b).end_frame().pressed_now.contains(b),
        !v.press(b).end_frame().press(b).pressed_now.contains(b),
        v.press(b).end_frame().press(b) == v.press(b).end_frame(),
{
}

/// Pressing twice is the same as pressing once.
pub proof fn lemma_press_idempotent(v: ButtonsView, b: u32)
    ensures
        v.press(b).press(b) == v.press(b),
{
}

/// "Released this frame" fires on the frame of the release only.
pub proof fn lemma_released_fires_once(v: ButtonsView, b: u32)
    ensures
        v.release(b).released_now.contains(b),
        !v.release(b).held.contains(b),
        !v.release(b).end_frame().released_now.contains(b),
        !v.release(b).end_frame().held.contains(b),
{
}

/// The end of a frame keeps held buttons, clears the frame's events, and
/// ending a frame twice is the same as ending it once.
pub proof fn lemma_end_frame(v: ButtonsView)
    ensures
        v.end_frame().held == v.held,
        v.end_frame().pressed_now.is_empty(),
        v.end_frame().released_now.is_empty(),
        v.end_frame().end_frame() == v.end_frame(),
{
}

/// An event on one button leaves every other button's state alone.
pub proof fn lemma_buttons_independent(v: ButtonsView, b: u32, c: u32)
    requires
        b != c,
    ensures
        v.press(b).held.contains(c) == v.held.contains(c),
        v.press(b).pressed_now.contains(c) == v.pressed_now.contains(c),
        v.press(b).released_now.contains(c) == v.released_now.contains(c),
        v.release(b).held.contains(c) == v.held.contains(c),
        v.release(b).pressed_now.contains(c) == v.pressed_now.contains(c),
        v.release(b).released_now.contains(c) == v.released_now.contains(c),
{
}

/// A press never marks anything as released this frame: the set of
/// buttons released this frame is the same before and after it.
pub proof fn lemma_press_never_releases(v: ButtonsView, b: u32)
    ensures
        v.press(b).released_now == v.released_now,
        !v.released_now.contains(b) ==> !v.press(b).released_now.contains(b),
{
}

/// A release never marks anything as pressed this frame: the set of
/// buttons pressed this frame is the same before and after it; in
/// particular a key pressed in an earlier frame is not "just pressed" after
/// its release.
pub proof fn lemma_release_never_presses(v: ButtonsView, b: u32)
    ensures
        v.release(b).pressed_now == v.pressed_now,
        !v.pressed_now.contains(b) ==> !v.release(b).pressed_now.contains(b),
        !v.press(b).end_frame().release(b).pressed_now.contains(b),
{
}

/// A press holds exactly the pressed button more, and marks it pressed this
/// frame exactly when it was not held before.
pub proof fn lemma_press_effect(v: ButtonsView, b: u32, c: u32)
    ensures
        v.press(b).held == v.held.insert(b),
        v.press(b).pressed_now.contains(c) == (v.pressed_now.contains(c) || (c == b && !v.held.contains(b))),
{
}

/// A release holds exactly the released button less and marks it released
/// this frame.
pub proof fn lemma_release_effect(v: ButtonsView, b: u32)
    ensures
        v.release(b).held == v.held.remove(b),
        v.release(b).released_now == v.released_now.insert(b),
{
}

/// Held / just-pressed / just-released tracking for a set of buttons named
/// by numeric codes.
#[derive(Debug)]
pub struct ButtonState {
    pressed: HashSet<u32>,
    just_pressed: HashSet<u32>,
    just_released: HashSet<u32>,
}

impl View for ButtonState {
    type V = ButtonsView;

    closed spec fn view(&self) -> ButtonsView {
        ButtonsView {
            held: self.pressed@,
            pressed_now: self.just_pressed@,
            released_now: self.just_released@,
        }
    }
}

impl ButtonState {
    /// No button held, nothing happened this frame.
    pub fn new() -> (s: Self)
        ensures
            s@ == ButtonsView::empty(),
    {
        ButtonState { pressed: HashSet::new(), just_pressed: HashSet::new(), just_released: HashSet::new() }
    }

    /// Records a press of `b`.
    pub fn press(&mut self, b: u32)
        ensures
            final(self)@ == old(self)@.press(b),
            final(self)@.held == old(self)@.held.insert(b),
            final(self)@.pressed_now == (if old(self)@.held.contains(b) {
                old(self)@.pressed_now
            } else {
                old(self)@.pressed_now.insert(b)
            }),
            final(self)@.released_now == old(self)@.released_now,
    {
        if self.pressed.insert(b) {
            self.just_pressed.insert(b);
        }
        assert(self@ =~= old(self)@.press(b));
    }

    /// Records a release of `b`.
    pub fn release(&mut self, b: u32)
        ensures
            final(self)@ == old(self)@.release(b),
            final(self)@.held == old(self)@.held.remove(b),
            final(self)@.pressed_now == old(self)@.pressed_now,
            final(self)@.released_now == old(self)@.released_now.insert(b),
    {
        self.pressed.remove(&b);
        self.just_released.insert(b);
    }

    /// Whether `b` is held.
    pub fn is_pressed(&self, b: u32) -> (r: bool)
        ensures
            r == self@.held.contains(b),
    {
        self.pressed.contains(&b)
    }

    /// Whether `b` went down this frame.
    pub fn just_pressed(&self, b: u32) -> (r: bool)
        ensures
            r == self@.pressed_now.contains(b),
    {
        self.just_pressed.contains(&b)
    }

    /// Whether `b` was released this frame.
    pub fn just_released(&self, b: u32) -> (r: bool)
        ensures
            r == self@.released_now.contains(b),
    {
        self.just_released.contains(&b)
    }

    /// Forgets this frame's events.
    pub fn end_frame(&mut self)
        ensures
            final(self)@ == old(self)@.end_frame(),
            final(self)@.held == old(self)@.held,
            final(self)@.pressed_now == Set::<u32>::empty(),
            final(self)@.released_now == Set::<u32>::empty(),
    {
        self.just_pressed.clear();
        self.just_released.clear();
    }
}

impl Default for ButtonState {
    fn default() -> (s: Self)
        ensures
            s@ == ButtonsView::empty(),
    {
        ButtonState::new()
    }
}

/// Keyboard state. Keys are named by numeric key codes; the platform layer
/// maps its own key identifiers to these codes.
#[derive(Debug)]
pub struct KeyboardState {
    keys: ButtonState,
}

impl View for KeyboardState {
    type V = ButtonsView;

    closed spec fn view(&self) -> ButtonsView {
        self.keys@
    }
}

impl KeyboardState {
    /// Records a key-down event.
    pub fn press(&mut self, key: u32)
        ensures
            final(self)@ == old(self)@.press(key),
            final(self)@.held == old(self)@.held.insert(key),
            final(self)@.pressed_now == (if old(self)@.held.contains(key) {
                old(self)@.pressed_now
            } else {
                old(self)@.pressed_now.insert(key)
            }),
            final(self)@.released_now == old(self)@.released_now,
    {
        self.keys.press(key);
    }

    /// Records a key-up event.
    pub fn release(&mut self, key: u32)
        ensures
            final(self)@ == old(self)@.release(key),
            final(self)@.held == old(self)@.held.remove(key),
            final(self)@.pressed_now == old(self)@.pressed_now,
            final(self)@.released_now == old(self)@.released_now.insert(key),
    {
        self.keys.release(key);
    }

    /// Whether the key is held.
    pub fn is_pressed(&self, key: u32) -> (r: bool)
        ensures
            r == self@.held.contains(key),
    {
        self.keys.is_pressed(key)
    }

    /// Whether the key went down this frame.
    pub fn just_pressed(&self, key: u32) -> (r: bool)
        ensures
            r == self@.pressed_now.contains(key),
    {
        self.keys.just_pressed(key)
    }

    /// Whether the key was released this frame.
    pub fn just_released(&self, key: u32) -> (r: bool)
        ensures
            r == self@.released_now.contains(key),
    {
        self.keys.just_released(key)
    }

    /// Forgets this frame's key events.
    pub fn end_frame(&mut self)
        ensures
            final(self)@ == old(self)@.end_frame(),
            final(self)@.held == old(self)@.held,
            final(self)@.pressed_now == Set::<u32>::empty(),
            final(self)@.released_now == Set::<u32>::empty(),
    {
        self.keys.end_frame();
    }
}

impl Default for KeyboardState {
    fn default() -> (s: Self)
        ensures
            s@ == ButtonsView::empty(),
    {
        KeyboardState { keys: ButtonState::new() }
    }
}

/// Mouse button state. Buttons are named by numeric codes; the cursor
/// position and motion are kept by the platform layer.
#[derive(Debug)]
pub struct MouseState {
    buttons: ButtonState,
}

impl View for MouseState {
    type V = ButtonsView;

    closed spec fn view(&self) -> ButtonsView {
        self.buttons@
    }
}

impl MouseState {
    /// Records a button-down event.
    pub fn press(&mut self, button: u32)
        ensures
            final(self)@ == old(self)@.press(button),
            final(self)@.held == old(self)@.held.insert(button),
            final(self)@.pressed_now == (if old(self)@.held.contains(button) {
                old(self)@.pressed_now
            } else {
                old(self)@.pressed_now.insert(button)
            }),
            final(self)@.released_now == old(self)@.released_now,
    {
        self.buttons.press(button);
    }

    /// Records a button-up event.
    pub fn release(&mut self, button: u32)
        ensures
            final(self)@ == old(self)@.release(button),
            final(self)@.held == old(self)@.held.remove(button),
            final(self)@.pressed_now == old(self)@.pressed_now,
            final(self)@.released_now == old(self)@.released_now.insert(button),
    {
        self.buttons.release(button);
    }

    /// Whether the button is held.
    pub fn is_pressed(&self, b: u32) -> (r: bool)
        ensures
            r == self@.held.contains(b),
    {
        self.buttons.is_pressed(b)
    }

    /// Whether the button went down this frame.
    pub fn just_pressed(&self, b: u32) -> (r: bool)
        ensures
            r == self@.pressed_now.contains(b),
    {
        self.buttons.just_pressed(b)
    }

    /// Whether the button was released this frame.
    pub fn just_released(&self, button: u32) -> (r: bool)
        ensures
            r == self@.released_now.contains(button),
    {
        self.buttons.just_released(button)
    }

    /// Forgets this frame's button events.
    pub fn end_frame(&mut self)
        ensures
            final(self)@ == old(self)@.end_frame(),
            final(self)@.held == old(self)@.held,
            final(self)@.pressed_now == Set::<u32>::empty(),
            final(self)@.released_now == Set::<u32>::empty(),
    {
        self.buttons.end_frame();
    }
}

impl Default for MouseState {
    fn default() -> (s: Self)
        ensures
            s@ == ButtonsView::empty(),
    {
        MouseState { buttons: ButtonState::new() }
    }
}

/// Gamepad buttons currently held, by numeric id. The analog axes are kept
/// by the platform layer.
#[derive(Debug)]
pub struct GamepadState {
    pub buttons: HashSet<u32>,
}

impl GamepadState {
    /// Whether the gamepad button is held.
    pub fn button_pressed(&self, id: u32) -> (r: bool)
        ensures
            r == self.buttons@.contains(id),
    {
        self.buttons.contains(&id)
    }
}

impl Default for GamepadState {
    fn default() -> (s: Self)
        ensures
            s.buttons@ == Set::<u32>::empty(),
    {
        GamepadState { buttons: HashSet::new() }
    }
}

/// All input devices together.
#[derive(Debug)]
pub struct InputState {
    pub keyboard: KeyboardState,
    pub mouse: MouseState,
    pub gamepad: GamepadState,
}

impl InputState {
    /// Ends the frame for the keyboard and the mouse; held buttons and the
    /// gamepad are left as they are.
    pub fn end_frame(&mut self)
        ensures
            final(self).keyboard@ == old(self).keyboard@.end_frame(),
            final(self).mouse@ == old(self).mouse@.end_frame(),
            final(self).gamepad.buttons@ == old(self).gamepad.buttons@,
    {
        self.keyboard.end_frame();
        self.mouse.end_frame();
    }
}

impl Default for InputState {
    fn default() -> (s: Self)
        ensures
            s.keyboard@ == ButtonsView::empty(),
            s.mouse@ == ButtonsView::empty(),
            s.gamepad.buttons@ == Set::<u32>::empty(),
    {
        InputState {
            keyboard: KeyboardState::default(),
            mouse: MouseState::default(),
            gamepad: GamepadState::default(),
        }
    }
}

} // verus!
