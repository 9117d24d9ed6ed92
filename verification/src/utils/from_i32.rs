//! A signed 32-bit number split into its direction and its magnitude.

use vstd::prelude::*;

verus! {

/// `Positive(n)` stands for `n > 0`, `Negative(n)` for `-n` (zero included).
#[derive(Debug, Clone, Copy, PartialEq, Eq, PartialOrd, Ord, Structural)]
pub enum FromI32 {
    Positive(u32),
    Negative(u32),
}

/// How `FromI32::new` splits `src`.
pub open spec fn split_i32(src: i32) -> FromI32 {
    if src > 0 {
        FromI32::Positive(src as u32)
    } else {
        FromI32::Negative((-src) as u32)
    }
}

impl FromI32 {
    /// The number that the value stands for.
    pub open spec fn value(self) -> int {
        match self {
            FromI32::Positive(n) => n as int,
            FromI32::Negative(n) => -(n as int),
        }
    }

    /// Splits `src`: positive numbers are `Positive`, zero and negative
    /// numbers `Negative`, each with the magnitude of `src`. The magnitude of
    /// `i32::MIN` overflows the negation, so it is outside what this takes.
    pub fn new(src: i32) -> (r: Self)
        requires
            src != i32::MIN,
        ensures
            r == split_i32(src),
            r.value() == src,
    {
        if src > 0 {
            FromI32::Positive(src as u32)
        } else {
            FromI32::Negative((-src) as u32)
        }
    }
}

/// Splitting a number and reading back what the parts stand for gives the
/// number again.
pub proof fn law_split_round_trip(src: i32)
    requires
        src != i32::MIN,
    ensures
        split_i32(src).value() == src,
{
}

} // verus!
