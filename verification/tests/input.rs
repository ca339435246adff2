use orbit_engine::managers::input::{
    key_down, key_up, mouse_down, mouse_move, mouse_up, move_button, process_input, ButtonState,
    DragMode, Input, InputManager, MoveButton, ReferenceRequest, ScrollAction,
};

fn idle() -> Input {
    Input {
        mouse_x: 0,
        mouse_y: 0,
        delta_x: 0,
        delta_y: 0,
        scroll_delta_x: 0,
        scroll_delta_y: 0,
        over_ui: false,
        m0: ButtonState::Depressed,
        m1: ButtonState::Depressed,
        forward: ButtonState::Depressed,
        left: ButtonState::Depressed,
        right: ButtonState::Depressed,
        back: ButtonState::Depressed,
        up: ButtonState::Depressed,
        down: ButtonState::Depressed,
        spacebar: ButtonState::Depressed,
        f: ButtonState::Depressed,
        g: ButtonState::Depressed,
        esc: ButtonState::Depressed,
        alt: false,
    }
}

#[test]
fn idle_frame_does_nothing() {
    let mut input = idle();
    let a = process_input(&mut input, 0, 0, false, false, false);
    assert!(!a.paused);
    assert_eq!(a.reference_request, None);
    assert!(!a.go_to_selection);
    assert_eq!(a.scroll, ScrollAction::KeepSpeed);
    assert_eq!((a.move_forward, a.move_right, a.move_up), (0, 0, 0));
    assert_eq!(a.drag, DragMode::Still);
    assert_eq!(input, idle());
}

#[test]
fn space_toggles_pause_once() {
    let mut input = idle();
    input.spacebar = ButtonState::Pressed;
    let a = process_input(&mut input, 0, 0, false, false, false);
    assert!(a.paused);
    assert_eq!(input.spacebar, ButtonState::Handled);
    let b = process_input(&mut input, 0, 0, false, false, a.paused);
    assert!(b.paused);
}

#[test]
fn mouse_movement_is_recorded() {
    let mut input = idle();
    input.mouse_x = 10;
    input.mouse_y = 4;
    input.m1 = ButtonState::Pressed;
    let a = process_input(&mut input, 7, 4, false, false, false);
    assert_eq!((input.delta_x, input.delta_y), (3, 0));
    assert_eq!(a.drag, DragMode::Look);
}

#[test]
fn alt_drag_orbits_only_with_a_reference() {
    let mut input = idle();
    input.mouse_x = 5;
    input.m0 = ButtonState::Pressed;
    input.alt = true;
    let a = process_input(&mut input.clone(), 0, 0, false, true, false);
    assert_eq!(a.drag, DragMode::Orbit);
    let b = process_input(&mut input, 0, 0, false, false, false);
    assert_eq!(b.drag, DragMode::Still);
}

#[test]
fn scrolling_zooms_or_changes_speed() {
    let mut input = idle();
    input.scroll_delta_y = -3;
    input.alt = true;
    let a = process_input(&mut input, 0, 0, false, true, false);
    assert_eq!(a.scroll, ScrollAction::ZoomIn);
    assert_eq!(input.scroll_delta_y, 0);
    input.scroll_delta_y = 2;
    let b = process_input(&mut input, 0, 0, false, false, false);
    assert_eq!(b.scroll, ScrollAction::SlowDown);
}

#[test]
fn escape_wins_over_focus() {
    let mut input = idle();
    input.f = ButtonState::Pressed;
    input.g = ButtonState::Pressed;
    let a = process_input(&mut input.clone(), 0, 0, true, false, false);
    assert_eq!(a.reference_request, Some(ReferenceRequest::FocusSelection));
    assert!(a.go_to_selection);
    input.esc = ButtonState::Pressed;
    let b = process_input(&mut input, 0, 0, true, false, false);
    assert_eq!(b.reference_request, Some(ReferenceRequest::Clear));
    let c = process_input(&mut idle(), 0, 0, false, false, false);
    assert_eq!(c.reference_request, None);
}

#[test]
fn opposite_keys_cancel() {
    let mut input = idle();
    input.forward = ButtonState::Pressed;
    input.back = ButtonState::Pressed;
    input.left = ButtonState::Pressed;
    input.up = ButtonState::Pressed;
    let a = process_input(&mut input, 0, 0, false, false, false);
    assert_eq!((a.move_forward, a.move_right, a.move_up), (0, -1, 1));
}

#[test]
fn manager_remembers_the_mouse() {
    let mut man = InputManager::new();
    let mut input = idle();
    input.mouse_x = 4;
    man.run(&mut input, false, false, false);
    assert_eq!(input.delta_x, 4);
    man.run(&mut input, false, false, false);
    assert_eq!(input.delta_x, 0);
}

#[test]
fn keys_press_and_release_movement_buttons() {
    assert_eq!(move_button("KeyW"), Some(MoveButton::Forward));
    assert_eq!(move_button("ArrowLeft"), Some(MoveButton::Left));
    assert_eq!(move_button("KeyQ"), Some(MoveButton::Down));
    assert_eq!(move_button("KeyZ"), None);
    let mut input = idle();
    key_down(&mut input, "KeyD");
    assert_eq!(input.right, ButtonState::Pressed);
    key_down(&mut input, "Space");
    key_up(&mut input, "KeyD");
    assert_eq!(input, idle());
}

#[test]
fn mouse_buttons() {
    let mut input = idle();
    assert!(!mouse_down(&mut input, 0));
    assert_eq!(input.m0, ButtonState::Pressed);
    input.m0 = ButtonState::Handled;
    mouse_down(&mut input, 0);
    assert_eq!(input.m0, ButtonState::Handled);
    assert!(mouse_down(&mut input, 2));
    assert_eq!(input.m1, ButtonState::Pressed);
    assert!(!mouse_down(&mut input, 1));
    assert!(!mouse_up(&mut input, 0));
    assert_eq!(input.m0, ButtonState::Depressed);
    assert!(mouse_up(&mut input, 2));
    assert_eq!(input.m1, ButtonState::Depressed);
}

#[test]
fn mouse_moves_absolutely_unless_locked() {
    let mut input = idle();
    mouse_move(&mut input, 100, 50, 3, 4);
    assert_eq!((input.mouse_x, input.mouse_y), (100, 50));
    input.m1 = ButtonState::Pressed;
    mouse_move(&mut input, 0, 0, 3, -4);
    assert_eq!((input.mouse_x, input.mouse_y), (103, 46));
}
