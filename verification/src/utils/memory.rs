//! Resolving the rel32 operand of an x86-64 `call` or `jmp`.
//!
//! Such an operand holds the distance from the next instruction, which starts
//! right after the four operand bytes, to the target.

use vstd::prelude::*;
use crate::utils::from_i32::FromI32;

verus! {

/// The width of a rel32 operand.
pub const REL32_SIZE: usize = 4;

/// The absolute target of a rel32 operand that sits at
/// `relative_address_pos` and holds `relative_address_value`: the address of
/// the next instruction plus the operand. Reading the operand from memory is
/// the caller's part.
pub fn relative_to_absolute_i32(relative_address_pos: usize, relative_address_value: i32) -> (r: usize)
    requires
        relative_address_value != i32::MIN,
        relative_address_pos + REL32_SIZE <= usize::MAX,
        0 <= relative_address_pos + REL32_SIZE + relative_address_value <= usize::MAX,
    ensures
        r == relative_address_pos + REL32_SIZE + relative_address_value,
{
    let next_instruction = relative_address_pos + REL32_SIZE;
    match FromI32::new(relative_address_value) {
        FromI32::Positive(value) => next_instruction + value as usize,
        FromI32::Negative(value) => next_instruction - value as usize,
    }
}

} // verus!
