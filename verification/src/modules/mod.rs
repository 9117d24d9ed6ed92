//! The game's libraries that the overlay hooks into.

pub mod sdl2;
pub mod shader_api_dx9;
pub mod tf2;
