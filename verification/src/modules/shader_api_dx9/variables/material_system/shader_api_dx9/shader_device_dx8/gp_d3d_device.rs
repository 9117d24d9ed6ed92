//! Where `g_pD3DDevice` lives.
//!
//! `CShaderDeviceDx8::CreateD3DDevice` stores the new device into the global
//! with `mov [rip+rel32], rbx` (`48 89 1D` and four operand bytes), followed by
//! `mov rcx, rdi` (`48 8B CF`). The overlay looks for that code in the
//! library's regions; the operand then gives the global's address, relative to
//! the next instruction.

use vstd::prelude::*;
use crate::utils::from_isize::FromIsize;
use crate::utils::memory::{relative_to_absolute_i32, REL32_SIZE};
use crate::utils::module::maps::MemoryMap;

verus! {

/// The code that stores the device (x86-64), `??` for the operand bytes.
pub const SIGNATURE: &'static str = "48 89 1D ?? ?? ?? ?? 48 8B CF";

/// The number of bytes that the signature spans.
pub const SIGNATURE_LEN: usize = 10;

/// From the start of the signature to its rel32 operand: the three opcode
/// bytes.
pub open spec fn spec_operand_offset() -> Option<FromIsize> {
    Some(FromIsize::Positive(3))
}

/// From the start of the signature to its rel32 operand.
#[verifier::when_used_as_spec(spec_operand_offset)]
pub fn operand_offset() -> (r: Option<FromIsize>)
    ensures
        r == spec_operand_offset(),
{
    Some(FromIsize::Positive(3))
}

/// Why the global was not found.
#[derive(Debug, Clone, Copy, PartialEq, Eq)]
pub enum Error {
    /// The signature matched in none of the regions.
    Find,
}

/// The first region, from `i` on, where the signature matched.
pub open spec fn first_found_from(first_matches: Seq<Option<usize>>, i: int) -> Option<int>
    decreases first_matches.len() - i,
{
    if i < 0 || i >= first_matches.len() {
        None
    } else if first_matches[i] is Some {
        Some(i)
    } else {
        first_found_from(first_matches, i + 1)
    }
}

/// The search picks the first region with a match: every region before it
/// had none, and `None` means no region had one.
pub proof fn law_first_found(first_matches: Seq<Option<usize>>, i: int)
    requires
        0 <= i,
    ensures
        match first_found_from(first_matches, i) {
            Some(j) => i <= j < first_matches.len() && first_matches[j] is Some && forall|k: int|
                i <= k < j ==> first_matches[k] is None,
            None => forall|k: int| i <= k < first_matches.len() ==> first_matches[k] is None,
        },
    decreases first_matches.len() - i,
{
    if i < first_matches.len() && first_matches[i] is None {
        law_first_found(first_matches, i + 1);
    }
}

/// The little-endian `i32` at `at` in `bytes`, as an unaligned read on x86-64
/// gives it.
pub open spec fn le_i32(bytes: Seq<u8>, at: int) -> i32 {
    ((bytes[at] as int + bytes[at + 1] as int * 256 + bytes[at + 2] as int * 65536 + bytes[at
        + 3] as int * 16777216) as u32) as i32
}


/// The operand is the four bytes read little-endian, first byte lowest, as
/// a two's-complement number: the sum of `bytes[at + k] * 256^k`, less
/// `2^32` when the top byte has its high bit set.
pub proof fn law_le_i32_little_endian(bytes: Seq<u8>, at: int)
    requires
        0 <= at,
        at + 4 <= bytes.len(),
    ensures
        le_i32(bytes, at) as int == bytes[at] as int + 256 * bytes[at + 1] as int + 65536
            * bytes[at + 2] as int + 16777216 * bytes[at + 3] as int - (if bytes[at + 3] >= 128 {
            4294967296int
        } else {
            0int
        }),
{
    let x: int = bytes[at] as int + bytes[at + 1] as int * 256 + bytes[at + 2] as int * 65536
        + bytes[at + 3] as int * 16777216;
    assert(0 <= x < 4294967296);
    let u: u32 = x as u32;
    assert(u == x);
    assert((u as i32) as int == (if u < 2147483648u32 {
        u as int
    } else {
        u as int - 4294967296int
    })) by (bit_vector);
    assert((bytes[at + 3] >= 128) == (x >= 2147483648));
}

/// Where the operand of the match in region `i` sits.
pub open spec fn operand_position(maps: Seq<MemoryMap>, first_matches: Seq<Option<usize>>, i: int) -> int {
    maps[i].start + first_matches[i]->0 + 3
}

/// What the search is given fits together: one image and one match result
/// per region, and for the first region with a match, the whole signature
/// lies in its image and the addresses that follow from it stay within
/// `usize` (the operand is not `i32::MIN`, whose magnitude overflows).
pub open spec fn resolvable(
    maps: Seq<MemoryMap>,
    images: Seq<&[u8]>,
    first_matches: Seq<Option<usize>>,
) -> bool {
    &&& maps.len() == images.len()
    &&& maps.len() == first_matches.len()
    &&& first_found_from(first_matches, 0) matches Some(i) ==> {
        let m = first_matches[i]->0;
        let at = operand_position(maps, first_matches, i);
        let value = le_i32(images[i]@, m + 3);
        &&& m + SIGNATURE_LEN <= images[i]@.len()
        &&& at + REL32_SIZE <= usize::MAX
        &&& value != i32::MIN
        &&& 0 <= at + REL32_SIZE + value <= usize::MAX
    }
}

/// The address of `g_pD3DDevice`: from the first region where the signature
/// matched, the operand's position plus its width plus its value; `Find`
/// where it matched nowhere.
pub open spec fn spec_find(
    maps: Seq<MemoryMap>,
    images: Seq<&[u8]>,
    first_matches: Seq<Option<usize>>,
) -> Result<usize, Error> {
    match first_found_from(first_matches, 0) {
        None => Err(Error::Find),
        Some(i) => {
            let m = first_matches[i]->0;
            let at = operand_position(maps, first_matches, i);
            Ok((at + REL32_SIZE + le_i32(images[i]@, m + 3)) as usize)
        },
    }
}

/// The little-endian `i32` at `at` in `bytes`.
pub fn read_i32_le(bytes: &[u8], at: usize) -> (r: i32)
    requires
        at + 4 <= bytes@.len(),
    ensures
        r == le_i32(bytes@, at as int),
{
    let v: u32 = (bytes[at] as u32) + (bytes[at + 1] as u32) * 256 + (bytes[at + 2] as u32)
        * 65536 + (bytes[at + 3] as u32) * 16777216;
    v as i32
}

/// Finds `g_pD3DDevice`: `maps` are the library's regions, `images` their
/// bytes, and `first_matches` where `SIGNATURE` first matched in each.
pub fn find(maps: &[MemoryMap], images: &[&[u8]], first_matches: &[Option<usize>]) -> (r: Result<
    usize,
    Error,
>)
    requires
        resolvable(maps@, images@, first_matches@),
    ensures
        r == spec_find(maps@, images@, first_matches@),
{
    let len = maps.len();
    let mut i: usize = 0;
    while i < len
        invariant
            len == maps@.len(),
            resolvable(maps@, images@, first_matches@),
            first_found_from(first_matches@, 0) == first_found_from(first_matches@, i as int),
        decreases len - i,
    {
        match first_matches[i] {
            Some(m) => {
                let mut address = maps[i].start + m;
                match operand_offset() {
                    Some(offset) => {
                        address = offset.add(address);
                    },
                    None => {},
                }
                let at = address - maps[i].start;
                let value = read_i32_le(images[i], at);
                return Ok(relative_to_absolute_i32(address, value));
            },
            None => {},
        }
        i = i + 1;
    }
    Err(Error::Find)
}

} // verus!
