//! The decisions and parsers of an in-game ImGui overlay for Team Fortress 2:
//! reading `/proc/self/maps`, resolving rel32 operands, patching function
//! slots in and out, filtering input while the menu is open, and picking the
//! game's window.

pub mod imgui;
pub mod menu;
pub mod modules;
pub mod utils;

