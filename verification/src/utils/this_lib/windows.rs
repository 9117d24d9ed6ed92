//! The library's own state on Windows.

use vstd::prelude::*;
use crate::utils::windows::console::Type;

verus! {

/// The library's module handle and the console it set up, if any.
#[derive(Debug)]
pub struct Windows {
    pub instance: isize,
    pub we_initialized_console: Option<Type>,
}

impl Default for Windows {
    /// No module handle yet and no console.
    fn default() -> (w: Self)
        ensures
            w.instance == 0,
            w.we_initialized_console is None,
    {
        Windows { instance: 0, we_initialized_console: None }
    }
}

impl Windows {
    /// Whether unloading frees the console: only a console that the library
    /// allocated itself, not one it attached to.
    pub fn frees_console(&self) -> (r: bool)
        ensures
            r == (self.we_initialized_console == Some(Type::Alloc)),
    {
        match self.we_initialized_console {
            Some(Type::Alloc) => true,
            _ => false,
        }
    }
}

} // verus!
