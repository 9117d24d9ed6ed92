//! Hooks by slot patching.
//!
//! The exported SDL function is a `jmp [rip+rel32]` through a slot that holds
//! the real function's address. A hook writes its own function's address into
//! the slot, and puts the hooked function's address back when it is
//! restored. The slot is read and written by the caller; what is decided here
//! is what to write.

use vstd::prelude::*;

pub mod gl_swap_window;
pub mod poll_event;

verus! {

/// The length of the `jmp` opcode (`ff 25`) before its rel32 operand, once
/// the `endbr64` that the symbol's address already skips is behind.
pub const JMP_OPCODE_LEN: usize = 2;

/// The slot's value after an optional write.
pub open spec fn after_write(current: usize, write: Option<usize>) -> usize {
    match write {
        Some(v) => v,
        None => current,
    }
}

/// Enabling a hook: write `ours` unless the slot already holds it.
pub open spec fn install_write(current: usize, ours: usize) -> Option<usize> {
    if current == ours {
        None
    } else {
        Some(ours)
    }
}

/// Disabling a hook: put `original` back if the slot holds `ours`, and
/// leave a slot that someone else has changed alone.
pub open spec fn restore_write(current: usize, ours: usize, original: usize) -> Option<usize> {
    if current == ours {
        Some(original)
    } else {
        None
    }
}

/// The write that enabling a hook makes on a slot that holds `current`.
pub fn slot_install(current: usize, ours: usize) -> (w: Option<usize>)
    ensures
        w == install_write(current, ours),
{
    if current == ours {
        None
    } else {
        Some(ours)
    }
}

/// The write that disabling a hook makes on a slot that holds `current`.
pub fn slot_restore(current: usize, ours: usize, original: usize) -> (w: Option<usize>)
    ensures
        w == restore_write(current, ours, original),
{
    if current == ours {
        Some(original)
    } else {
        None
    }
}

/// After enabling, the slot holds `ours`, and enabling again writes nothing.
pub proof fn law_install_idempotent(current: usize, ours: usize)
    ensures
        after_write(current, install_write(current, ours)) == ours,
        install_write(after_write(current, install_write(current, ours)), ours) is None,
{
}

/// Enabling and then disabling a hook puts the hooked function back into the
/// slot.
pub proof fn law_restore_undoes_install(original: usize, ours: usize)
    requires
        original != ours,
    ensures
        ({
            let hooked = after_write(original, install_write(original, ours));
            after_write(hooked, restore_write(hooked, ours, original)) == original
        }),
{
}

/// Disabling a hook that is not in the slot writes nothing.
pub proof fn law_restore_without_install(current: usize, ours: usize, original: usize)
    requires
        current != ours,
    ensures
        restore_write(current, ours, original) is None,
{
}

/// The two hooks that the overlay places in SDL2.
#[derive(Debug)]
pub struct Hooks {
    pub gl_swap_window: gl_swap_window::GLSwapWindow,
    pub poll_event: poll_event::PollEvent,
}

} // verus!
