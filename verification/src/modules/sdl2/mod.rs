//! SDL2, whose `SDL_PollEvent` and `SDL_GL_SwapWindow` are hooked on Linux.

use vstd::prelude::*;

pub mod hooks;

verus! {

/// The library's file name, as it appears in the maps of the process.
pub const FILEPATH: &'static str = "libSDL2-2.0.so";

} // verus!
