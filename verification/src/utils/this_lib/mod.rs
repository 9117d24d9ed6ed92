//! What the library keeps about its own loading, per operating system.

pub mod windows;
