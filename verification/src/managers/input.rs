use crate::text::str_eq;
use vstd::prelude::*;

verus! {

/// The state of a button as the frame loop sees it.
#[derive(Clone, Copy, Debug, PartialEq, Eq, Structural)]
pub enum ButtonState {
    Depressed,
    Pressed,
    /// Pressed, and already acted on.
    Handled,
}

impl Default for ButtonState {
    fn default() -> (r: Self)
        ensures
            r == ButtonState::Depressed,
    {
        ButtonState::Depressed
    }
}

/// The input of one frame: mouse position in canvas pixels, movement since
/// the last frame, scrolling and buttons.
#[derive(Clone, Copy, Debug, PartialEq, Eq, Structural)]
pub struct Input {
    pub mouse_x: i32,
    pub mouse_y: i32,
    pub delta_x: i32,
    pub delta_y: i32,
    pub scroll_delta_x: i32,
    pub scroll_delta_y: i32,
    pub over_ui: bool,
    pub m0: ButtonState,
    pub m1: ButtonState,
    pub forward: ButtonState,
    pub left: ButtonState,
    pub right: ButtonState,
    pub back: ButtonState,
    pub up: ButtonState,
    pub down: ButtonState,
    pub spacebar: ButtonState,
    pub f: ButtonState,
    pub g: ButtonState,
    pub esc: ButtonState,
    /// Whether the alt modifier is held.
    pub alt: bool,
}

/// A change of the object that the camera is referenced to.
#[derive(Clone, Copy, Debug, PartialEq, Eq, Structural)]
pub enum ReferenceRequest {
    /// Reference the camera to the selected object, keeping the camera where
    /// it is.
    FocusSelection,
    /// Drop the reference.
    Clear,
}

/// What the scroll wheel does this frame.
#[derive(Clone, Copy, Debug, PartialEq, Eq, Structural)]
pub enum ScrollAction {
    /// Move the camera and its target closer to the reference.
    ZoomIn,
    /// Move the camera and its target away from the reference.
    ZoomOut,
    /// Zoom mode, but no scrolling.
    KeepZoom,
    /// Raise the movement speed.
    SpeedUp,
    /// Lower the movement speed.
    SlowDown,
    /// Speed mode, but no scrolling; the speed is only kept within bounds.
    KeepSpeed,
}

/// How dragging the mouse turns the camera this frame.
#[derive(Clone, Copy, Debug, PartialEq, Eq, Structural)]
pub enum DragMode {
    /// Orbit around the reference.
    Orbit,
    /// Look around from where the camera is.
    Look,
    /// No turning.
    Still,
}

/// What the camera and the simulation should do after one frame of input.
#[derive(Clone, Copy, Debug, PartialEq, Eq, Structural)]
pub struct InputActions {
    pub paused: bool,
    pub reference_request: Option<ReferenceRequest>,
    pub go_to_selection: bool,
    pub scroll: ScrollAction,
    /// Movement along the camera's forward, right and up directions: each
    /// -1, 0 or 1.
    pub move_forward: i32,
    pub move_right: i32,
    pub move_up: i32,
    pub drag: DragMode,
}

/// The button is down and not yet acted on.
pub open spec fn pressed(b: ButtonState) -> bool {
    b == ButtonState::Pressed
}

/// The movement along one axis from the buttons for both directions.
pub open spec fn axis(plus: ButtonState, minus: ButtonState) -> int {
    (if pressed(plus) {
        1int
    } else {
        0int
    }) - (if pressed(minus) {
        1int
    } else {
        0int
    })
}

/// The actions of one frame of input, given the mouse position of the last
/// frame, whether an object is selected, whether the camera is referenced
/// to one, and whether the simulation is paused.
pub open spec fn input_actions(
    input: Input,
    last_mouse_x: i32,
    last_mouse_y: i32,
    has_selection: bool,
    has_reference: bool,
    paused: bool,
) -> InputActions {
    let dx = input.mouse_x - last_mouse_x;
    let dy = input.mouse_y - last_mouse_y;
    let moved = dx != 0 || dy != 0;
    InputActions {
        paused: if pressed(input.spacebar) {
            !paused
        } else {
            paused
        },
        reference_request: if pressed(input.esc) {
            Some(ReferenceRequest::Clear)
        } else if has_selection && pressed(input.f) {
            Some(ReferenceRequest::FocusSelection)
        } else {
            None
        },
        go_to_selection: has_selection && pressed(input.g),
        scroll: if input.alt && has_reference {
            if input.scroll_delta_y < 0 {
                ScrollAction::ZoomIn
            } else if input.scroll_delta_y > 0 {
                ScrollAction::ZoomOut
            } else {
                ScrollAction::KeepZoom
            }
        } else {
            if input.scroll_delta_y < 0 {
                ScrollAction::SpeedUp
            } else if input.scroll_delta_y > 0 {
                ScrollAction::SlowDown
            } else {
                ScrollAction::KeepSpeed
            }
        },
        move_forward: axis(input.forward, input.back) as i32,
        move_right: axis(input.right, input.left) as i32,
        move_up: axis(input.up, input.down) as i32,
        drag: if pressed(input.m0) && moved && input.alt && has_reference {
            DragMode::Orbit
        } else if pressed(input.m1) && moved {
            DragMode::Look
        } else {
            DragMode::Still
        },
    }
}

/// How much a scroll action scales what it acts on, in percent: the
/// movement speed for the speed actions, the camera's distance to the
/// reference for the zoom actions.
pub open spec fn scroll_scale_percent(a: ScrollAction) -> int {
    match a {
        ScrollAction::ZoomIn => 90,
        ScrollAction::ZoomOut => 110,
        ScrollAction::KeepZoom => 100,
        ScrollAction::SpeedUp => 110,
        ScrollAction::SlowDown => 90,
        ScrollAction::KeepSpeed => 100,
    }
}

/// Whether a scroll action changes the camera's distance rather than its
/// movement speed.
pub open spec fn is_zoom(a: ScrollAction) -> bool {
    a is ZoomIn || a is ZoomOut || a is KeepZoom
}

/// The scroll wheel acts by its direction: with alt held and a reference,
/// it zooms, and otherwise it changes the movement speed; scrolling up
/// (a negative delta) brings the camera closer or speeds it up, scrolling
/// down moves it away or slows it down, and no scrolling leaves both.
/// Wheel movements the same way act the same, and opposite ones act in
/// opposite ways.
pub proof fn lemma_scroll_follows_the_wheel(
    a: Input,
    b: Input,
    last_mouse_x: i32,
    last_mouse_y: i32,
    has_selection: bool,
    has_reference: bool,
    paused: bool,
)
    ensures
        ({
            let s = input_actions(a, last_mouse_x, last_mouse_y, has_selection, has_reference, paused).scroll;
            &&& is_zoom(s) == (a.alt && has_reference)
            &&& is_zoom(s) ==> (a.scroll_delta_y < 0 <==> scroll_scale_percent(s) < 100)
            &&& !is_zoom(s) ==> (a.scroll_delta_y < 0 <==> scroll_scale_percent(s) > 100)
            &&& is_zoom(s) ==> (a.scroll_delta_y > 0 <==> scroll_scale_percent(s) > 100)
            &&& !is_zoom(s) ==> (a.scroll_delta_y > 0 <==> scroll_scale_percent(s) < 100)
            &&& a.scroll_delta_y == 0 <==> scroll_scale_percent(s) == 100
        }),
        ({
            let s = input_actions(a, last_mouse_x, last_mouse_y, has_selection, has_reference, paused).scroll;
            let t = input_actions(b, last_mouse_x, last_mouse_y, has_selection, has_reference, paused).scroll;
            a.alt == b.alt ==> {
                &&& (a.scroll_delta_y < 0) == (b.scroll_delta_y < 0) && (a.scroll_delta_y > 0) == (
                b.scroll_delta_y > 0) ==> s == t
                &&& a.scroll_delta_y < 0 && b.scroll_delta_y > 0 ==> s != t
                    && scroll_scale_percent(s) - 100 == 100 - scroll_scale_percent(t)
            }
        }),
{
}

/// The rest of a frame's actions by what the keys and the mouse mean: the
/// space bar toggles the pause; escape always drops the reference, and the
/// focus key asks to reference the selection only when there is one and
/// escape is not pressed; going to the selection needs one; each movement
/// axis is 1 with only its positive key pressed, -1 with only its negative
/// one, 0 with both or neither, and exchanging the two keys negates it;
/// orbiting needs the left button, alt and a reference, looking around the
/// right button, and either needs the mouse to have moved.
pub proof fn lemma_frame_actions_follow_the_keys(
    a: Input,
    last_mouse_x: i32,
    last_mouse_y: i32,
    has_selection: bool,
    has_reference: bool,
    paused: bool,
)
    ensures
        ({
            let r = input_actions(a, last_mouse_x, last_mouse_y, has_selection, has_reference, paused);
            let moved = a.mouse_x != last_mouse_x || a.mouse_y != last_mouse_y;
            let swapped = Input { forward: a.back, back: a.forward, left: a.right, right: a.left, up: a.down, down: a.up, ..a };
            let q = input_actions(swapped, last_mouse_x, last_mouse_y, has_selection, has_reference, paused);
            &&& (r.paused != paused) == (a.spacebar == ButtonState::Pressed)
            &&& a.esc == ButtonState::Pressed ==> r.reference_request == Some(ReferenceRequest::Clear)
            &&& r.reference_request == Some(ReferenceRequest::FocusSelection) <==> (has_selection
                && a.f == ButtonState::Pressed && a.esc != ButtonState::Pressed)
            &&& r.reference_request is None <==> (a.esc != ButtonState::Pressed && !(has_selection
                && a.f == ButtonState::Pressed))
            &&& r.go_to_selection <==> (has_selection && a.g == ButtonState::Pressed)
            &&& (a.forward == ButtonState::Pressed && a.back != ButtonState::Pressed) ==> r.move_forward == 1
            &&& (a.back == ButtonState::Pressed && a.forward != ButtonState::Pressed) ==> r.move_forward == -1
            &&& (a.forward == ButtonState::Pressed) == (a.back == ButtonState::Pressed) ==> r.move_forward == 0
            &&& (a.right == ButtonState::Pressed && a.left != ButtonState::Pressed) ==> r.move_right == 1
            &&& (a.left == ButtonState::Pressed && a.right != ButtonState::Pressed) ==> r.move_right == -1
            &&& (a.right == ButtonState::Pressed) == (a.left == ButtonState::Pressed) ==> r.move_right == 0
            &&& (a.up == ButtonState::Pressed && a.down != ButtonState::Pressed) ==> r.move_up == 1
            &&& (a.down == ButtonState::Pressed && a.up != ButtonState::Pressed) ==> r.move_up == -1
            &&& (a.up == ButtonState::Pressed) == (a.down == ButtonState::Pressed) ==> r.move_up == 0
            &&& q.move_forward == -r.move_forward
            &&& q.move_right == -r.move_right
            &&& q.move_up == -r.move_up
            &&& r.drag == DragMode::Orbit ==> a.m0 == ButtonState::Pressed && a.alt && has_reference && moved
            &&& r.drag == DragMode::Look ==> a.m1 == ButtonState::Pressed && moved
            &&& !moved ==> r.drag == DragMode::Still
            &&& (a.m0 == ButtonState::Pressed && a.alt && has_reference && moved) ==> r.drag == DragMode::Orbit
        }),
{
}

/// The input after the frame acted on it: the mouse movement is recorded,
/// a pressed space bar is marked handled and the scrolling is consumed.
pub open spec fn input_after(input: Input, last_mouse_x: i32, last_mouse_y: i32) -> Input {
    Input {
        delta_x: (input.mouse_x - last_mouse_x) as i32,
        delta_y: (input.mouse_y - last_mouse_y) as i32,
        scroll_delta_y: 0,
        spacebar: if pressed(input.spacebar) {
            ButtonState::Handled
        } else {
            input.spacebar
        },
        ..input
    }
}

fn is_pressed(b: ButtonState) -> (r: bool)
    ensures
        r == pressed(b),
{
    match b {
        ButtonState::Pressed => true,
        _ => false,
    }
}

fn axis_of(plus: ButtonState, minus: ButtonState) -> (r: i32)
    ensures
        r == axis(plus, minus),
{
    let p: i32 = if is_pressed(plus) { 1 } else { 0 };
    let m: i32 = if is_pressed(minus) { 1 } else { 0 };
    p - m
}

/// Acts on one frame of input: records the mouse movement since
/// (`last_mouse_x`, `last_mouse_y`), toggles the pause on the space bar,
/// consumes the scrolling, and returns what the camera should do.
pub fn process_input(
    input: &mut Input,
    last_mouse_x: i32,
    last_mouse_y: i32,
    has_selection: bool,
    has_reference: bool,
    paused: bool,
) -> (r: InputActions)
    requires
        i32::MIN <= old(input).mouse_x - last_mouse_x <= i32::MAX,
        i32::MIN <= old(input).mouse_y - last_mouse_y <= i32::MAX,
    ensures
        r == input_actions(
            *old(input),
            last_mouse_x,
            last_mouse_y,
            has_selection,
            has_reference,
            paused,
        ),
        *final(input) == input_after(*old(input), last_mouse_x, last_mouse_y),
{
    let mut now_paused = paused;
    if is_pressed(input.spacebar) {
        now_paused = !paused;
        input.spacebar = ButtonState::Handled;
    }
    input.delta_x = input.mouse_x - last_mouse_x;
    input.delta_y = input.mouse_y - last_mouse_y;
    let mut reference_request: Option<ReferenceRequest> = None;
    if has_selection && is_pressed(input.f) {
        reference_request = Some(ReferenceRequest::FocusSelection);
    }
    let go_to_selection = has_selection && is_pressed(input.g);
    if is_pressed(input.esc) {
        reference_request = Some(ReferenceRequest::Clear);
    }
    let scroll = if input.alt && has_reference {
        if input.scroll_delta_y < 0 {
            ScrollAction::ZoomIn
        } else if input.scroll_delta_y > 0 {
            ScrollAction::ZoomOut
        } else {
            ScrollAction::KeepZoom
        }
    } else {
        if input.scroll_delta_y < 0 {
            ScrollAction::SpeedUp
        } else if input.scroll_delta_y > 0 {
            ScrollAction::SlowDown
        } else {
            ScrollAction::KeepSpeed
        }
    };
    input.scroll_delta_y = 0;
    let moved = input.delta_x != 0 || input.delta_y != 0;
    let drag = if is_pressed(input.m0) && moved && input.alt && has_reference {
        DragMode::Orbit
    } else if is_pressed(input.m1) && moved {
        DragMode::Look
    } else {
        DragMode::Still
    };
    InputActions {
        paused: now_paused,
        reference_request,
        go_to_selection,
        scroll,
        move_forward: axis_of(input.forward, input.back),
        move_right: axis_of(input.right, input.left),
        move_up: axis_of(input.up, input.down),
        drag,
    }
}

/// Remembers where the mouse was at the end of the last frame.
pub struct InputManager {
    last_mouse_x: i32,
    last_mouse_y: i32,
}

impl InputManager {
    pub closed spec fn last_mouse(&self) -> (i32, i32) {
        (self.last_mouse_x, self.last_mouse_y)
    }

    pub fn new() -> (r: Self)
        ensures
            r.last_mouse() == (0i32, 0i32),
    {
        InputManager { last_mouse_x: 0, last_mouse_y: 0 }
    }

    /// Acts on one frame of input and remembers its mouse position.
    pub fn run(
        &mut self,
        input: &mut Input,
        has_selection: bool,
        has_reference: bool,
        paused: bool,
    ) -> (r: InputActions)
        requires
            i32::MIN <= old(input).mouse_x - old(self).last_mouse().0 <= i32::MAX,
            i32::MIN <= old(input).mouse_y - old(self).last_mouse().1 <= i32::MAX,
        ensures
            r == input_actions(
                *old(input),
                old(self).last_mouse().0,
                old(self).last_mouse().1,
                has_selection,
                has_reference,
                paused,
            ),
            *final(input) == input_after(
                *old(input),
                old(self).last_mouse().0,
                old(self).last_mouse().1,
            ),
            final(self).last_mouse() == (old(input).mouse_x, old(input).mouse_y),
    {
        let r = process_input(
            input,
            self.last_mouse_x,
            self.last_mouse_y,
            has_selection,
            has_reference,
            paused,
        );
        self.last_mouse_x = input.mouse_x;
        self.last_mouse_y = input.mouse_y;
        r
    }
}

/// The movement buttons that keys stand for.
#[derive(Clone, Copy, Debug, PartialEq, Eq, Structural)]
pub enum MoveButton {
    Forward,
    Left,
    Back,
    Right,
    Up,
    Down,
}

/// The movement button that the key with code `code` stands for, if any.
pub open spec fn move_button_of(code: Seq<char>) -> Option<MoveButton> {
    if code == "KeyW"@ || code == "ArrowUp"@ {
        Some(MoveButton::Forward)
    } else if code == "KeyA"@ || code == "ArrowLeft"@ {
        Some(MoveButton::Left)
    } else if code == "KeyS"@ || code == "ArrowDown"@ {
        Some(MoveButton::Back)
    } else if code == "KeyD"@ || code == "ArrowRight"@ {
        Some(MoveButton::Right)
    } else if code == "KeyE"@ {
        Some(MoveButton::Up)
    } else if code == "KeyQ"@ {
        Some(MoveButton::Down)
    } else {
        None
    }
}

/// `input` with movement button `b` in state `state`.
pub open spec fn with_move_button(input: Input, b: MoveButton, state: ButtonState) -> Input {
    match b {
        MoveButton::Forward => Input { forward: state, ..input },
        MoveButton::Left => Input { left: state, ..input },
        MoveButton::Back => Input { back: state, ..input },
        MoveButton::Right => Input { right: state, ..input },
        MoveButton::Up => Input { up: state, ..input },
        MoveButton::Down => Input { down: state, ..input },
    }
}

/// The movement button that the key with code `code` stands for, if any.
pub fn move_button(code: &str) -> (r: Option<MoveButton>)
    ensures
        r == move_button_of(code@),
{
    if str_eq(code, "KeyW") || str_eq(code, "ArrowUp") {
        Some(MoveButton::Forward)
    } else if str_eq(code, "KeyA") || str_eq(code, "ArrowLeft") {
        Some(MoveButton::Left)
    } else if str_eq(code, "KeyS") || str_eq(code, "ArrowDown") {
        Some(MoveButton::Back)
    } else if str_eq(code, "KeyD") || str_eq(code, "ArrowRight") {
        Some(MoveButton::Right)
    } else if str_eq(code, "KeyE") {
        Some(MoveButton::Up)
    } else if str_eq(code, "KeyQ") {
        Some(MoveButton::Down)
    } else {
        None
    }
}

fn set_move_button(input: &mut Input, b: MoveButton, state: ButtonState)
    ensures
        *final(input) == with_move_button(*old(input), b, state),
{
    match b {
        MoveButton::Forward => input.forward = state,
        MoveButton::Left => input.left = state,
        MoveButton::Back => input.back = state,
        MoveButton::Right => input.right = state,
        MoveButton::Up => input.up = state,
        MoveButton::Down => input.down = state,
    }
}

/// A key with code `code` went down: its movement button is pressed.
pub fn key_down(input: &mut Input, code: &str)
    ensures
        *final(input) == match move_button_of(code@) {
            Some(b) => with_move_button(*old(input), b, ButtonState::Pressed),
            None => *old(input),
        },
{
    match move_button(code) {
        Some(b) => set_move_button(input, b, ButtonState::Pressed),
        None => {},
    }
}

/// A key with code `code` went up: its movement button is released.
pub fn key_up(input: &mut Input, code: &str)
    ensures
        *final(input) == match move_button_of(code@) {
            Some(b) => with_move_button(*old(input), b, ButtonState::Depressed),
            None => *old(input),
        },
{
    match move_button(code) {
        Some(b) => set_move_button(input, b, ButtonState::Depressed),
        None => {},
    }
}

/// Mouse button `button` went down (0 the main button, 2 the secondary
/// one). A main button already acted on stays so. Returns whether the
/// pointer should be locked to the canvas, which the secondary button asks.
pub fn mouse_down(input: &mut Input, button: i16) -> (lock_pointer: bool)
    ensures
        lock_pointer == (button == 2),
        *final(input) == if button == 0 && old(input).m0 == ButtonState::Depressed {
            Input { m0: ButtonState::Pressed, ..*old(input) }
        } else if button == 2 {
            Input { m1: ButtonState::Pressed, ..*old(input) }
        } else {
            *old(input)
        },
{
    if button == 0 {
        if input.m0 == ButtonState::Depressed {
            input.m0 = ButtonState::Pressed;
        }
        false
    } else if button == 2 {
        input.m1 = ButtonState::Pressed;
        true
    } else {
        false
    }
}

/// Mouse button `button` went up. Returns whether the pointer lock should be
/// released, which the secondary button asks.
pub fn mouse_up(input: &mut Input, button: i16) -> (release_pointer: bool)
    ensures
        release_pointer == (button == 2),
        *final(input) == if button == 0 {
            Input { m0: ButtonState::Depressed, ..*old(input) }
        } else if button == 2 {
            Input { m1: ButtonState::Depressed, ..*old(input) }
        } else {
            *old(input)
        },
{
    if button == 0 {
        input.m0 = ButtonState::Depressed;
        false
    } else if button == 2 {
        input.m1 = ButtonState::Depressed;
        true
    } else {
        false
    }
}

/// The mouse moved. While the secondary button holds the pointer locked the
/// position only moves by `movement_x`, `movement_y`; otherwise it is the
/// pointer's position on the page.
pub fn mouse_move(input: &mut Input, client_x: i32, client_y: i32, movement_x: i32, movement_y: i32)
    requires
        pressed(old(input).m1) ==> i32::MIN <= old(input).mouse_x + movement_x <= i32::MAX,
        pressed(old(input).m1) ==> i32::MIN <= old(input).mouse_y + movement_y <= i32::MAX,
    ensures
        *final(input) == if pressed(old(input).m1) {
            Input {
                mouse_x: (old(input).mouse_x + movement_x) as i32,
                mouse_y: (old(input).mouse_y + movement_y) as i32,
                ..*old(input)
            }
        } else {
            Input { mouse_x: client_x, mouse_y: client_y, ..*old(input) }
        },
{
    if is_pressed(input.m1) {
        input.mouse_x = input.mouse_x + movement_x;
        input.mouse_y = input.mouse_y + movement_y;
    } else {
        input.mouse_x = client_x;
        input.mouse_y = client_y;
    }
}

} // verus!
