use tf2_imgui_rs::modules::shader_api_dx9::variables::material_system::shader_api_dx9::shader_device_dx8::gp_d3d_device;
use tf2_imgui_rs::modules::shader_api_dx9::variables::material_system::shader_api_dx9::shader_device_dx8::ShaderDeviceDX8;
use tf2_imgui_rs::modules::shader_api_dx9::variables::Variables;
use tf2_imgui_rs::modules::tf2::hooks::wnd_proc::{self, WndProc};
use tf2_imgui_rs::modules::tf2::{hooks, Error, TF2};
use tf2_imgui_rs::utils::module::maps::MemoryMap;
use tf2_imgui_rs::utils::this_lib::windows::Windows;
use tf2_imgui_rs::utils::windows::console::Type;
use tf2_imgui_rs::utils::windows::hwnd::{is_volvo_window_class, volvo_windows};

#[test]
fn game_window_needs_exactly_one() {
    assert_eq!(TF2::game_window(vec![]).unwrap_err(), Error::FindWindow);
    assert_eq!(TF2::game_window(vec![5, 6]).unwrap_err(), Error::MultipleValve001);
    assert_eq!(TF2::game_window(vec![0x1234]).unwrap(), 0x1234);
}

#[test]
fn window_procedure_must_be_positive() {
    let w = WndProc::find_original(7, 0x7ff6_0000_1000).unwrap();
    assert_eq!(w.original, 0x7ff6_0000_1000);
    assert_eq!(w.hwnd, 7);
    assert_eq!(WndProc::find_original(7, 0).unwrap_err(), wnd_proc::Error::FindOriginal);
    assert_eq!(WndProc::find_original(7, -5).unwrap_err(), wnd_proc::Error::FindOriginal);
    let game = TF2::new(7, 0x1000).unwrap();
    assert_eq!(game.hwnd, 7);
    assert_eq!(game.hooks.wnd_proc.original, 0x1000);
    assert_eq!(
        TF2::new(7, -1).unwrap_err(),
        Error::Hooks(hooks::Error::WndProc(wnd_proc::Error::FindOriginal))
    );
}

#[test]
fn volvo_class_names() {
    assert!(is_volvo_window_class(b"Valve001"));
    assert!(is_volvo_window_class(b"Valve001 extra"));
    assert!(!is_volvo_window_class(b"Valve00"));
    assert!(!is_volvo_window_class(b"valve001"));
    assert!(!is_volvo_window_class(b""));
    assert!(!is_volvo_window_class(b"Valve001\xff"));
    let found = volvo_windows(
        &vec![1, 2, 3, 4],
        &vec![b"Valve001".to_vec(), b"IME".to_vec(), b"Valve001".to_vec(), b"SDL_app".to_vec()],
    );
    assert_eq!(found, vec![1, 3]);
}

#[test]
fn console_freed_only_when_allocated() {
    let mut w = Windows::default();
    assert_eq!(w.instance, 0);
    assert!(!w.frees_console());
    w.we_initialized_console = Some(Type::Attach);
    assert!(!w.frees_console());
    w.we_initialized_console = Some(Type::Alloc);
    assert!(w.frees_console());
}

fn image_with_signature(at: usize, operand: i32, len: usize) -> Vec<u8> {
    let mut image = vec![0xccu8; len];
    image[at..at + 3].copy_from_slice(&[0x48, 0x89, 0x1D]);
    image[at + 3..at + 7].copy_from_slice(&operand.to_le_bytes());
    image[at + 7..at + 10].copy_from_slice(&[0x48, 0x8B, 0xCF]);
    image
}

#[test]
fn device_global_found_in_first_matching_region() {
    let first = vec![0u8; 32];
    let second = image_with_signature(5, 0x10, 32);
    let third = image_with_signature(0, -0x20, 16);
    let maps = [
        MemoryMap { start: 0x1000, size: 32 },
        MemoryMap { start: 0x2000, size: 32 },
        MemoryMap { start: 0x3000, size: 16 },
    ];
    let images: [&[u8]; 3] = [&first, &second, &third];
    let matches = [None, Some(5), Some(0)];
    // 0x2000 + 5 + 3 = 0x2008; next instruction 0x200c; + 0x10
    assert_eq!(gp_d3d_device::find(&maps, &images, &matches).unwrap(), 0x201c);
    let device = ShaderDeviceDX8::find(&maps, &images, &matches).unwrap();
    assert_eq!(device.gp_d3d_device, 0x201c);
    let variables = Variables::find(&maps[2..], &images[2..], &matches[2..]).unwrap();
    // 0x3000 + 3 + 4 - 0x20
    assert_eq!(
        variables.material_system.shader_api_dx9.shader_device_dx8.gp_d3d_device,
        0x3007 - 0x20
    );
    assert_eq!(gp_d3d_device::SIGNATURE.split_whitespace().count(), gp_d3d_device::SIGNATURE_LEN);
}

#[test]
fn device_global_missing() {
    let first = vec![0u8; 8];
    let maps = [MemoryMap { start: 0x1000, size: 8 }];
    let images: [&[u8]; 1] = [&first];
    assert_eq!(gp_d3d_device::find(&maps, &images, &[None]).unwrap_err(), gp_d3d_device::Error::Find);
    assert!(Variables::find(&[], &[], &[]).is_err());
}
