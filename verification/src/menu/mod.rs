//! The overlay's menu: open or closed, toggled by a key.

use vstd::prelude::*;

verus! {

/// Whether the menu is open after a frame: a press of its key flips it.
pub open spec fn toggled(open: bool, pressed: bool) -> bool {
    open != pressed
}

/// Whether the menu is open.
#[derive(Debug)]
pub struct Menu {
    pub is_enabled: bool,
}

impl Default for Menu {
    /// A closed menu.
    fn default() -> (m: Self)
        ensures
            !m.is_enabled,
    {
        Menu { is_enabled: false }
    }
}

impl Menu {
    /// Whether the cursor is drawn: exactly while the menu is open.
    pub fn draws_cursor(&self) -> (r: bool)
        ensures
            r == self.is_enabled,
    {
        self.is_enabled
    }

    /// Toggles the menu when its key was pressed this frame.
    pub fn update_input(&mut self, insert_pressed: bool)
        ensures
            final(self).is_enabled == toggled(old(self).is_enabled, insert_pressed),
    {
        if insert_pressed {
            self.is_enabled = !self.is_enabled;
        }
    }
}

/// Two presses of the key leave the menu as it was; a frame without a press
/// leaves it alone.
pub proof fn law_toggle_twice(open: bool)
    ensures
        toggled(open, true) == !open,
        toggled(toggled(open, true), true) == open,
        toggled(open, false) == open,
{
}

} // verus!
