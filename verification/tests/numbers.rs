use tf2_imgui_rs::utils::from_i32::FromI32;
use tf2_imgui_rs::utils::from_isize::FromIsize;
use tf2_imgui_rs::utils::memory::relative_to_absolute_i32;

#[test]
fn from_i32_splits_by_sign() {
    assert_eq!(FromI32::new(5), FromI32::Positive(5));
    assert_eq!(FromI32::new(0), FromI32::Negative(0));
    assert_eq!(FromI32::new(-7), FromI32::Negative(7));
    assert_eq!(FromI32::new(i32::MAX), FromI32::Positive(i32::MAX as u32));
    assert_eq!(FromI32::new(i32::MIN + 1), FromI32::Negative(i32::MAX as u32));
}

#[test]
fn from_isize_splits_and_moves() {
    assert_eq!(FromIsize::new(3), FromIsize::Positive(3));
    assert_eq!(FromIsize::new(0), FromIsize::Negative(0));
    assert_eq!(FromIsize::new(-12), FromIsize::Negative(12));
    assert_eq!(FromIsize::new(3).add(100), 103);
    assert_eq!(FromIsize::new(-12).add(100), 88);
    assert_eq!(FromIsize::new(0).add(100), 100);
    assert_eq!(FromIsize::Negative(100).add(100), 0);
}

#[test]
fn relative_call_target() {
    // 00b6165e  e8 5d fd ff ff  CALL function_1
    let operand: i32 = i32::from_le_bytes([0x5d, 0xfd, 0xff, 0xff]);
    assert_eq!(operand, -675);
    assert_eq!(relative_to_absolute_i32(0x00b6165f, operand), 0x00b613c0);
}

#[test]
fn relative_forward_jump() {
    // ff 25 2e 68 19 00: jmp [rip + 0x19682e]
    assert_eq!(relative_to_absolute_i32(0x1002, 0x19682e), 0x1006 + 0x19682e);
    assert_eq!(relative_to_absolute_i32(0x1002, 0), 0x1006);
}
