//! `shaderapidx9.dll`, which holds the game's Direct3D 9 device.

use vstd::prelude::*;

pub mod variables;

verus! {

/// The library's path, relative to the game's directory.
pub const FILEPATH: &'static str = ".\\bin\\x64\\shaderapidx9.dll";

} // verus!
