//! What a click on the tray icon does.
use vstd::prelude::*;

verus! {

/// The state of the mouse button in a tray click event.
#[derive(Clone, Copy, Debug, PartialEq, Eq, Structural)]
pub enum ButtonState {
    Up,
    Down,
}

/// A click toggles the panel when the button is released, not when it is
/// pressed, so that one click toggles it once.
pub fn should_toggle_panel(button_state: ButtonState) -> (r: bool)
    ensures
        r == (button_state == ButtonState::Up),
{
    match button_state {
        ButtonState::Up => true,
        ButtonState::Down => false,
    }
}

} // verus!
