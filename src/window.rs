//! Whether the panel window is open, and how a click anywhere on screen
//! changes that.

use vstd::prelude::*;

verus! {

/// Whether the panel window is taken to be open.
pub struct WindowVisibility {
    pub visible: bool,
}

impl WindowVisibility {
    /// A window that starts hidden.
    pub fn new() -> (r: Self)
        ensures
            !r.visible,
    {
        WindowVisibility { visible: false }
    }
}

/// Records whether the window is open.
pub fn set_window_visible(state: &mut WindowVisibility, visible: bool)
    ensures
        final(state).visible == visible,
{
    state.visible = visible;
}

/// Whether the window is taken to be open.
pub fn is_window_visible_flag(state: &WindowVisibility) -> (r: bool)
    ensures
        r == state.visible,
{
    state.visible
}

/// Handles a mouse click anywhere on screen. Nothing happens while the
/// window is taken to be closed. When the system has hidden the window on
/// its own, the record follows. A click outside an open window closes it:
/// the result says whether to hide the window.
pub fn handle_global_click(state: &mut WindowVisibility, window_shown: bool, click_inside: bool) -> (hide: bool)
    ensures
        hide == (old(state).visible && window_shown && !click_inside),
        final(state).visible == (old(state).visible && window_shown && click_inside),
{
    if !is_window_visible_flag(state) {
        return false;
    }
    if !window_shown {
        set_window_visible(state, false);
        return false;
    }
    if !click_inside {
        set_window_visible(state, false);
        return true;
    }
    false
}

} // verus!
