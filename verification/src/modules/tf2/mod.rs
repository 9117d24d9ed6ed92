//! The game itself on Windows: its `Valve001` window and that window's
//! procedure.

use vstd::prelude::*;

pub mod hooks;

verus! {

/// Why the game could not be set up.
#[derive(Debug, Clone, Copy, PartialEq, Eq)]
pub enum Error {
    /// No `Valve001` window in the process.
    FindWindow,
    /// More than one `Valve001` window in the process.
    MultipleValve001,
    /// The window's procedure could not be taken.
    Hooks(hooks::Error),
}

/// The game's window and the hook on its procedure.
#[derive(Debug)]
pub struct TF2 {
    pub hwnd: isize,
    pub hooks: hooks::Hooks,
}

impl TF2 {
    /// The game's window among the `Valve001` windows of the process: the
    /// only one, else `MultipleValve001` for several and `FindWindow` for none.
    pub fn game_window(volvo_windows: Vec<isize>) -> (r: Result<isize, Error>)
        ensures
            volvo_windows.len() > 1 ==> r == Err::<isize, Error>(Error::MultipleValve001),
            volvo_windows.len() == 0 ==> r == Err::<isize, Error>(Error::FindWindow),
            volvo_windows.len() == 1 ==> r == Ok::<isize, Error>(volvo_windows@[0]),
    {
        let mut volvo_windows = volvo_windows;
        if volvo_windows.len() > 1 {
            return Err(Error::MultipleValve001);
        }
        match volvo_windows.pop() {
            None => Err(Error::FindWindow),
            Some(hwnd) => Ok(hwnd),
        }
    }

    /// The game for its window `hwnd`, whose procedure the window reports as
    /// `window_procedure` (a pointer-sized value, which is not `isize::MIN`).
    pub fn new(hwnd: isize, window_procedure: isize) -> (r: Result<TF2, Error>)
        requires
            window_procedure != isize::MIN,
        ensures
            window_procedure > 0 ==> (r matches Ok(game) && game.hwnd == hwnd
                && game.hooks.wnd_proc.original == window_procedure
                && game.hooks.wnd_proc.hwnd == hwnd),
            window_procedure <= 0 ==> r == Err::<TF2, Error>(
                Error::Hooks(hooks::Error::WndProc(hooks::wnd_proc::Error::FindOriginal)),
            ),
    {
        match hooks::Hooks::find_original(hwnd, window_procedure) {
            Ok(hooks) => Ok(TF2 { hwnd, hooks }),
            Err(e) => Err(Error::Hooks(e)),
        }
    }
}

} // verus!
