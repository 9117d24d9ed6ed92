# tf2_imgui_rs

The verified core of an in-game overlay for Team Fortress 2, written in Verus.

- `src/` is the library. Every function in it has a contract; Verus proves all of them except
  two small wrappers around the standard library (`String::from_iter` and `std::str::from_utf8`),
  whose contracts state what their documentation says:
  - `utils::module::maps` reads `/proc/<pid>/maps` lines and files (`MemoryMap::from_line`,
    `parse_proc_maps`, `find_closest_map`), over the specification in `line_fields`,
    `proc_lines` and `group_lines`;
  - `utils::text` holds the character scanning and the hexadecimal parsing that those use;
  - `utils::from_i32`, `utils::from_isize` and `utils::memory` split signed offsets and
    resolve rel32 operands;
  - `modules::sdl2::hooks` decides the writes that enable and disable a slot hook, and which
    input events the game must not see while the menu is open;
  - `modules::tf2` and `modules::shader_api_dx9` pick the game's window and its procedure,
    and locate `g_pD3DDevice` from a signature match;
  - `menu` and `imgui` hold the menu's toggle and the unload latch.
- `app/` is the shared library that is loaded into the game on Linux: it reads the process's
  maps, opens SDL2, reads and writes the slots, and runs the hooked functions.
- `tests/` runs the library on concrete inputs.
