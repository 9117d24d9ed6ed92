//! The hook on `SDL_GL_SwapWindow`, where the overlay draws each frame.

use vstd::prelude::*;
use super::{install_write, restore_write, slot_install, slot_restore};

verus! {

/// The slot behind `SDL_GL_SwapWindow` and the function it held.
#[derive(Debug)]
pub struct GLSwapWindow {
    pub original: usize,
    pub address: usize,
}

impl GLSwapWindow {
    /// The write that enables the hook, given what the slot holds now and
    /// the address of the hook's function; the hook reports `true` when it
    /// writes.
    pub fn hook_init(&self, current: usize, ours: usize) -> (w: Option<usize>)
        ensures
            w == install_write(current, ours),
    {
        slot_install(current, ours)
    }

    /// The write that disables the hook; the hook reports `true` when it
    /// writes.
    pub fn hook_restore(&self, current: usize, ours: usize) -> (w: Option<usize>)
        ensures
            w == restore_write(current, ours, self.original),
    {
        slot_restore(current, ours, self.original)
    }
}

} // verus!
