//! The hook on `SDL_PollEvent`, which hides input from the game while the
//! menu is open.

use vstd::prelude::*;
use super::{install_write, restore_write, slot_install, slot_restore};

verus! {

/// `SDL_FIRSTEVENT`, an event type that the game ignores.
pub const SDL_FIRSTEVENT: u32 = 0;
/// `SDL_KEYDOWN`.
pub const SDL_KEYDOWN: u32 = 768;
/// `SDL_KEYUP`.
pub const SDL_KEYUP: u32 = 769;
/// `SDL_TEXTEDITING`.
pub const SDL_TEXTEDITING: u32 = 770;
/// `SDL_TEXTINPUT`.
pub const SDL_TEXTINPUT: u32 = 771;
/// `SDL_MOUSEMOTION`.
pub const SDL_MOUSEMOTION: u32 = 1024;
/// `SDL_MOUSEBUTTONDOWN`.
pub const SDL_MOUSEBUTTONDOWN: u32 = 1025;
/// `SDL_MOUSEBUTTONUP`.
pub const SDL_MOUSEBUTTONUP: u32 = 1026;
/// `SDL_MOUSEWHEEL`.
pub const SDL_MOUSEWHEEL: u32 = 1027;

/// Keyboard, text and mouse events: those that the menu takes for itself.
pub open spec fn is_input_event(event_type: u32) -> bool {
    ||| event_type == SDL_MOUSEMOTION
    ||| event_type == SDL_MOUSEBUTTONDOWN
    ||| event_type == SDL_MOUSEBUTTONUP
    ||| event_type == SDL_MOUSEWHEEL
    ||| event_type == SDL_KEYDOWN
    ||| event_type == SDL_KEYUP
    ||| event_type == SDL_TEXTEDITING
    ||| event_type == SDL_TEXTINPUT
}

/// The type that a polled event keeps: an input event that was polled
/// (`result != 0`), that the overlay took, while the menu is open, is
/// turned into `SDL_FIRSTEVENT`; every other event keeps its type.
pub open spec fn filtered_type(result: i32, taken: bool, menu_enabled: bool, event_type: u32) -> u32 {
    if result != 0 && taken && menu_enabled && is_input_event(event_type) {
        SDL_FIRSTEVENT
    } else {
        event_type
    }
}

/// The type to leave in a polled event. `taken` is what the overlay's
/// event handler answered; it is asked only when `result != 0`.
pub fn filter_event_type(result: i32, taken: bool, menu_enabled: bool, event_type: u32) -> (t: u32)
    ensures
        t == filtered_type(result, taken, menu_enabled, event_type),
{
    if result != 0 && taken && menu_enabled {
        if event_type == SDL_MOUSEMOTION || event_type == SDL_MOUSEBUTTONDOWN || event_type
            == SDL_MOUSEBUTTONUP || event_type == SDL_MOUSEWHEEL || event_type == SDL_KEYDOWN
            || event_type == SDL_KEYUP || event_type == SDL_TEXTEDITING || event_type
            == SDL_TEXTINPUT {
            return SDL_FIRSTEVENT;
        }
    }
    event_type
}

/// The game sees every event unchanged while the menu is closed, and sees
/// events other than input unchanged always.
pub proof fn law_filter_only_input_while_open(
    result: i32,
    taken: bool,
    menu_enabled: bool,
    event_type: u32,
)
    ensures
        !menu_enabled ==> filtered_type(result, taken, menu_enabled, event_type) == event_type,
        !is_input_event(event_type) ==> filtered_type(result, taken, menu_enabled, event_type)
            == event_type,
        result == 0 ==> filtered_type(result, taken, menu_enabled, event_type) == event_type,
{
}


/// Exactly the keyboard (`0x300`-`0x303`: key down, key up, text editing,
/// text input) and mouse (`0x400`-`0x403`: motion, button down, button up,
/// wheel) events of a successful poll are hidden, and only while the overlay
/// took them and the menu is open; they become `SDL_FIRSTEVENT` (`0`), and
/// every other event keeps its type.
pub proof fn law_filter_exact(result: i32, taken: bool, menu_enabled: bool, event_type: u32)
    ensures
        filtered_type(result, taken, menu_enabled, event_type) == (if result != 0 && taken
            && menu_enabled && ((768 <= event_type && event_type <= 771) || (1024 <= event_type
            && event_type <= 1027)) {
            0u32
        } else {
            event_type
        }),
{
}

/// The slot behind `SDL_PollEvent` and the function it held.
#[derive(Debug)]
pub struct PollEvent {
    pub original: usize,
    pub address: usize,
}

impl PollEvent {
    /// The write that enables the hook, given what the slot holds now and
    /// the address of the hook's function; the hook reports `true` when it
    /// writes.
    pub fn hook_init(&self, current: usize, ours: usize) -> (w: Option<usize>)
        ensures
            w == install_write(current, ours),
    {
        slot_install(current, ours)
    }

    /// The write that disables the hook; the hook reports `true` when it
    /// writes.
    pub fn hook_restore(&self, current: usize, ours: usize) -> (w: Option<usize>)
        ensures
            w == restore_write(current, ours, self.original),
    {
        slot_restore(current, ours, self.original)
    }
}

} // verus!
