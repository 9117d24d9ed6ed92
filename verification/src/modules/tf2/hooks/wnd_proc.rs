//! The game's window procedure, which the overlay replaces to see window
//! messages first.

use vstd::prelude::*;
use crate::utils::from_isize::FromIsize;

verus! {

/// Why the window procedure could not be taken.
#[derive(Debug, Clone, Copy, PartialEq, Eq)]
pub enum Error {
    /// The window reported no procedure address (zero or negative).
    FindOriginal,
}

/// The window and the procedure it had before the hook.
#[derive(Debug)]
pub struct WndProc {
    pub original: usize,
    pub hwnd: isize,
}

impl WndProc {
    /// Takes the procedure of window `hwnd` from the value that the window
    /// reports for it: a positive value is the procedure's address; zero and
    /// negative values are refused.
    pub fn find_original(hwnd: isize, window_procedure: isize) -> (r: Result<WndProc, Error>)
        requires
            window_procedure != isize::MIN,
        ensures
            window_procedure > 0 ==> (r matches Ok(w) && w.original == window_procedure
                && w.hwnd == hwnd),
            window_procedure <= 0 ==> r == Err::<WndProc, Error>(Error::FindOriginal),
    {
        match FromIsize::new(window_procedure) {
            FromIsize::Positive(position) => Ok(WndProc { original: position, hwnd }),
            FromIsize::Negative(_) => Err(Error::FindOriginal),
        }
    }
}

} // verus!
