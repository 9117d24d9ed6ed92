pub mod from_i32;
pub mod from_isize;
pub mod memory;
pub mod module;
pub mod text;
pub mod this_lib;
pub mod windows;
