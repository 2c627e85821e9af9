//! Mouse input state: a bitmask of held buttons plus pointer position and
//! velocity, double-buffered so that presses and releases can be told from
//! held buttons.

use vstd::prelude::*;
use crate::vector2i::Vector2I;

verus! {

#[derive(Clone, Copy, PartialEq, Eq, Structural, Debug)]
pub enum MouseButton {
    NoButton,
    Left,
    Middle,
    Right,
    X1,
    X2,
}

/// 1-based bit position of a button; 0 stands for no button.
pub open spec fn spec_button_index(b: MouseButton) -> u8 {
    match b {
        MouseButton::NoButton => 0,
        MouseButton::Left => 1,
        MouseButton::Middle => 2,
        MouseButton::Right => 3,
        MouseButton::X1 => 4,
        MouseButton::X2 => 5,
    }
}

/// Whether the bit of `b` is set in `buttons` (never for `NoButton`).
pub open spec fn button_held(buttons: u8, b: MouseButton) -> bool {
    spec_button_index(b) != 0 && buttons & (1u8 << ((spec_button_index(b) - 1) as u8)) != 0
}

fn button_index(b: &MouseButton) -> (r: u8)
    ensures
        r == spec_button_index(*b),
{
    match b {
        MouseButton::NoButton => 0,
        MouseButton::Left => 1,
        MouseButton::Middle => 2,
        MouseButton::Right => 3,
        MouseButton::X1 => 4,
        MouseButton::X2 => 5,
    }
}

/// Toggling one button's bit changes that button alone.
proof fn lemma_button_bit_toggle(m: u8, i: u8, j: u8)
    by (bit_vector)
    requires
        1 <= i <= 5,
        1 <= j <= 5,
    ensures
        i == j ==> ((m ^ (1u8 << ((i - 1) as u8))) & (1u8 << ((j - 1) as u8)) != 0) == !(m & (1u8 << ((j - 1) as u8))
            != 0),
        i != j ==> ((m ^ (1u8 << ((i - 1) as u8))) & (1u8 << ((j - 1) as u8)) != 0) == (m & (1u8 << ((j - 1) as u8))
            != 0),
        ((m ^ (1u8 << ((i - 1) as u8))) & 0xE0u8) == (m & 0xE0u8),
{
}

#[derive(Clone, Copy, PartialEq, Eq, Structural, Debug)]
pub struct MouseState {
    pub buttons: u8,
    pub position: Vector2I,
    pub velocity: Vector2I,
}

impl Default for MouseState {
    fn default() -> (r: MouseState)
        ensures
            r.buttons == 0,
            r.position == (Vector2I { x: 0, y: 0 }),
            r.velocity == (Vector2I { x: 0, y: 0 }),
    {
        MouseState {
            buttons: 0,
            position: Vector2I { x: 0, y: 0 },
            velocity: Vector2I { x: 0, y: 0 },
        }
    }
}

impl MouseState {
    /// Whether a button is held in this state; `NoButton` never is.
    pub fn get_button_state(&self, button: &MouseButton) -> (r: bool)
        ensures
            r == button_held(self.buttons, *button),
    {
        let index = button_index(button);
        if index == 0 {
            return false;
        }
        self.buttons & (1u8 << ((index - 1) as u32)) != 0
    }

    /// Sets or clears one button's bit; every other bit of the byte and the
    /// pointer fields are untouched, and `NoButton` changes nothing.
    pub fn set_button_state(&mut self, button: &MouseButton, state: bool)
        ensures
            final(self).position == old(self).position,
            final(self).velocity == old(self).velocity,
            (final(self).buttons & 0xE0u8) == (old(self).buttons & 0xE0u8),
            spec_button_index(*button) != 0 ==> button_held(final(self).buttons, *button)
                == state,
            spec_button_index(*button) == 0 ==> final(self).buttons == old(self).buttons,
            forall|b2: MouseButton|
                spec_button_index(b2) != spec_button_index(*button) ==> button_held(
                    final(self).buttons,
                    b2,
                ) == button_held(old(self).buttons, b2),
    {
        let index = button_index(button);
        if index == 0 || self.get_button_state(button) == state {
            proof {
                assert forall|b2: MouseButton|
                    spec_button_index(b2) != spec_button_index(*button) implies button_held(
                    self.buttons,
                    b2,
                ) == button_held(old(self).buttons, b2) by {}
            }
            return ;
        }
        self.buttons = self.buttons ^ (1u8 << ((index - 1) as u32));
        proof {
            lemma_button_bit_toggle(old(self).buttons, index, index);
            assert forall|b2: MouseButton|
                spec_button_index(b2) != spec_button_index(*button) implies button_held(
                self.buttons,
                b2,
            ) == button_held(old(self).buttons, b2) by {
                if spec_button_index(b2) != 0 {
                    lemma_button_bit_toggle(old(self).buttons, index, spec_button_index(b2));
                }
            }
        }
    }
}

#[derive(Clone, Copy, PartialEq, Eq, Structural, Debug)]
pub struct InputState {
    pub mouse: MouseState,
}

impl Default for InputState {
    fn default() -> (r: InputState)
        ensures
            r.mouse.buttons == 0,
            r.mouse.position == (Vector2I { x: 0, y: 0 }),
            r.mouse.velocity == (Vector2I { x: 0, y: 0 }),
    {
        InputState { mouse: MouseState::default() }
    }
}

/// The last two input states: the current one and the one before it.
pub struct Input {
    prev_state: InputState,
    curr_state: InputState,
}

impl Input {
    /// The state pushed before the current one.
    pub closed spec fn spec_prev(&self) -> InputState {
        self.prev_state
    }

    /// The most recently pushed state.
    pub closed spec fn spec_curr(&self) -> InputState {
        self.curr_state
    }

    pub fn new() -> (r: Input)
        ensures
            r.spec_prev() == (InputState {
                mouse: MouseState {
                    buttons: 0,
                    position: Vector2I { x: 0, y: 0 },
                    velocity: Vector2I { x: 0, y: 0 },
                },
            }),
            r.spec_curr() == r.spec_prev(),
    {
        Input { prev_state: InputState::default(), curr_state: InputState::default() }
    }

    /// Whether the button is down in the current state.
    pub fn mouse_held(&self, button: MouseButton) -> (r: bool)
        ensures
            r == button_held(self.spec_curr().mouse.buttons, button),
    {
        self.curr_state.mouse.get_button_state(&button)
    }

    /// Whether the button went down between the previous and current state.
    pub fn mouse_pressed(&self, button: MouseButton) -> (r: bool)
        ensures
            r == (!button_held(self.spec_prev().mouse.buttons, button) && button_held(
                self.spec_curr().mouse.buttons,
                button,
            )),
    {
        !self.prev_state.mouse.get_button_state(&button) && self.curr_state.mouse.get_button_state(
            &button,
        )
    }

    /// Whether the button was released between the previous and current state.
    pub fn mouse_released(&self, button: MouseButton) -> (r: bool)
        ensures
            r == (button_held(self.spec_prev().mouse.buttons, button) && !button_held(
                self.spec_curr().mouse.buttons,
                button,
            )),
    {
        self.prev_state.mouse.get_button_state(&button) && !self.curr_state.mouse.get_button_state(
            &button,
        )
    }

    pub fn get_mouse_position(&self) -> (r: Vector2I)
        ensures
            r == self.spec_curr().mouse.position,
    {
        self.curr_state.mouse.position
    }

    pub fn get_mouse_velocity(&self) -> (r: Vector2I)
        ensures
            r == self.spec_curr().mouse.velocity,
    {
        self.curr_state.mouse.velocity
    }

    /// Makes the current state the previous one and installs a new current
    /// state.
    pub fn push_state(&mut self, state: InputState)
        ensures
            final(self).spec_prev() == old(self).spec_curr(),
            final(self).spec_curr() == state,
    {
        self.prev_state = self.curr_state;
        self.curr_state = state;
    }

    pub fn prev_state(&self) -> (r: &InputState)
        ensures
            *r == self.spec_prev(),
    {
        &self.prev_state
    }

    pub fn curr_state(&self) -> (r: &InputState)
        ensures
            *r == self.spec_curr(),
    {
        &self.curr_state
    }
}

} // verus!
