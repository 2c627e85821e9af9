use mst_terrain::input::{Input, InputState, MouseButton, MouseState};
use mst_terrain::vector2i::Vector2I;

fn state_with_buttons(buttons: &[MouseButton]) -> InputState {
    let mut mouse = MouseState::default();
    for b in buttons {
        mouse.set_button_state(b, true);
    }
    InputState { mouse }
}

#[test]
fn button_bits_are_independent() {
    let mut mouse = MouseState::default();
    mouse.set_button_state(&MouseButton::Left, true);
    mouse.set_button_state(&MouseButton::Right, true);
    assert!(mouse.get_button_state(&MouseButton::Left));
    assert!(mouse.get_button_state(&MouseButton::Right));
    assert!(!mouse.get_button_state(&MouseButton::Middle));
    assert_eq!(mouse.buttons, 0b101);

    mouse.set_button_state(&MouseButton::Left, false);
    assert!(!mouse.get_button_state(&MouseButton::Left));
    assert!(mouse.get_button_state(&MouseButton::Right));
}

#[test]
fn setting_a_button_twice_is_idempotent() {
    let mut mouse = MouseState::default();
    mouse.set_button_state(&MouseButton::X1, true);
    mouse.set_button_state(&MouseButton::X1, true);
    assert_eq!(mouse.buttons, 0b1000);
}

#[test]
fn no_button_never_reads_or_writes() {
    let mut mouse = MouseState::default();
    mouse.set_button_state(&MouseButton::NoButton, true);
    assert_eq!(mouse.buttons, 0);
    assert!(!mouse.get_button_state(&MouseButton::NoButton));
}

#[test]
fn press_and_release_track_state_transitions() {
    let mut input = Input::new();
    input.push_state(state_with_buttons(&[MouseButton::Left]));
    assert!(input.mouse_pressed(MouseButton::Left));
    assert!(input.mouse_held(MouseButton::Left));
    assert!(!input.mouse_released(MouseButton::Left));

    input.push_state(state_with_buttons(&[MouseButton::Left]));
    assert!(!input.mouse_pressed(MouseButton::Left));
    assert!(input.mouse_held(MouseButton::Left));

    input.push_state(state_with_buttons(&[]));
    assert!(input.mouse_released(MouseButton::Left));
    assert!(!input.mouse_held(MouseButton::Left));
}

#[test]
fn pointer_fields_come_from_the_current_state() {
    let mut input = Input::new();
    let mut mouse = MouseState::default();
    mouse.position = Vector2I { x: 10, y: -3 };
    mouse.velocity = Vector2I { x: 1, y: 2 };
    input.push_state(InputState { mouse });
    assert_eq!(input.get_mouse_position(), Vector2I { x: 10, y: -3 });
    assert_eq!(input.get_mouse_velocity(), Vector2I { x: 1, y: 2 });
    assert_eq!(input.curr_state().mouse.position, Vector2I { x: 10, y: -3 });
    assert_eq!(input.prev_state().mouse.position, Vector2I { x: 0, y: 0 });
}
