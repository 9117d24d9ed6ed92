//! Windows-side decisions that do not need the operating system.

pub mod console;
pub mod hwnd;
