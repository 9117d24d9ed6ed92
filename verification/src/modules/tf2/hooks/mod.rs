//! The game's hooks: its window procedure.

use vstd::prelude::*;

pub mod wnd_proc;

verus! {

/// Why the game's hooks could not be set up.
#[derive(Debug, Clone, Copy, PartialEq, Eq)]
pub enum Error {
    WndProc(wnd_proc::Error),
}

/// The hook on the game's window procedure.
#[derive(Debug)]
pub struct Hooks {
    pub wnd_proc: wnd_proc::WndProc,
}

impl Hooks {
    /// The hooks of window `hwnd`, whose procedure is `window_procedure`.
    pub fn find_original(hwnd: isize, window_procedure: isize) -> (r: Result<Hooks, Error>)
        requires
            window_procedure != isize::MIN,
        ensures
            window_procedure > 0 ==> (r matches Ok(h) && h.wnd_proc.original == window_procedure
                && h.wnd_proc.hwnd == hwnd),
            window_procedure <= 0 ==> r == Err::<Hooks, Error>(
                Error::WndProc(wnd_proc::Error::FindOriginal),
            ),
    {
        match wnd_proc::WndProc::find_original(hwnd, window_procedure) {
            Ok(wnd_proc) => Ok(Hooks { wnd_proc }),
            Err(e) => Err(Error::WndProc(e)),
        }
    }
}

} // verus!
