use tf2_imgui_rs::imgui::begin_unload;
use tf2_imgui_rs::menu::Menu;
use tf2_imgui_rs::modules::sdl2::hooks::gl_swap_window::GLSwapWindow;
use tf2_imgui_rs::modules::sdl2::hooks::poll_event::{
    filter_event_type, PollEvent, SDL_FIRSTEVENT, SDL_KEYDOWN, SDL_MOUSEMOTION, SDL_TEXTINPUT,
};
use tf2_imgui_rs::modules::sdl2::hooks::{slot_install, slot_restore};

const ORIGINAL: usize = 0x7f00_0000_1000;
const OURS: usize = 0x5555_0000_2000;

#[test]
fn poll_event_hook_install_and_restore() {
    let hook = PollEvent { original: ORIGINAL, address: 0x7f00_0010_0000 };
    let mut slot = ORIGINAL;
    let w = hook.hook_init(slot, OURS);
    assert_eq!(w, Some(OURS));
    slot = w.unwrap();
    // already installed: nothing to do
    assert_eq!(hook.hook_init(slot, OURS), None);
    let w = hook.hook_restore(slot, OURS);
    assert_eq!(w, Some(ORIGINAL));
    slot = w.unwrap();
    assert_eq!(slot, ORIGINAL);
    // not installed: nothing to restore
    assert_eq!(hook.hook_restore(slot, OURS), None);
}

#[test]
fn gl_swap_window_restore_leaves_foreign_slot() {
    let hook = GLSwapWindow { original: ORIGINAL, address: 0x10 };
    assert_eq!(hook.hook_restore(0x1234, OURS), None);
    assert_eq!(hook.hook_init(0x1234, OURS), Some(OURS));
    assert_eq!(slot_install(OURS, OURS), None);
    assert_eq!(slot_restore(OURS, OURS, 9), Some(9));
}

#[test]
fn input_filtered_only_while_menu_open() {
    assert_eq!(filter_event_type(1, true, true, SDL_KEYDOWN), SDL_FIRSTEVENT);
    assert_eq!(filter_event_type(1, true, true, SDL_MOUSEMOTION), SDL_FIRSTEVENT);
    assert_eq!(filter_event_type(1, true, true, SDL_TEXTINPUT), SDL_FIRSTEVENT);
    assert_eq!(filter_event_type(1, true, true, 1026), SDL_FIRSTEVENT);
    assert_eq!(filter_event_type(1, true, false, SDL_KEYDOWN), SDL_KEYDOWN);
    assert_eq!(filter_event_type(1, false, true, SDL_KEYDOWN), SDL_KEYDOWN);
    assert_eq!(filter_event_type(0, true, true, SDL_KEYDOWN), SDL_KEYDOWN);
    // window events pass through
    assert_eq!(filter_event_type(1, true, true, 0x200), 0x200);
    // quit event
    assert_eq!(filter_event_type(1, true, true, 0x100), 0x100);
}

#[test]
fn menu_toggles_on_key() {
    let mut menu = Menu::default();
    assert!(!menu.is_enabled);
    assert!(!menu.draws_cursor());
    menu.update_input(false);
    assert!(!menu.is_enabled);
    menu.update_input(true);
    assert!(menu.is_enabled);
    assert!(menu.draws_cursor());
    menu.update_input(false);
    assert!(menu.is_enabled);
    menu.update_input(true);
    assert!(!menu.is_enabled);
}

#[test]
fn unload_starts_once() {
    let mut unloading = false;
    assert!(!begin_unload(&mut unloading, false));
    assert!(!unloading);
    assert!(begin_unload(&mut unloading, true));
    assert!(unloading);
    assert!(!begin_unload(&mut unloading, true));
    assert!(!begin_unload(&mut unloading, false));
    assert!(unloading);
}
