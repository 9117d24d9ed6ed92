//! A pointer-sized signed number split into its direction and its magnitude,
//! for moving an address by it.

use vstd::prelude::*;

verus! {

/// `Positive(n)` stands for `n > 0`, `Negative(n)` for `-n` (zero included).
#[derive(Debug, Clone, Copy, PartialEq, Eq, PartialOrd, Ord, Structural)]
pub enum FromIsize {
    Positive(usize),
    Negative(usize),
}

/// How `FromIsize::new` splits `src`.
pub open spec fn split_isize(src: isize) -> FromIsize {
    if src > 0 {
        FromIsize::Positive(src as usize)
    } else {
        FromIsize::Negative((-src) as usize)
    }
}

impl FromIsize {
    /// The number that the value stands for.
    pub open spec fn value(self) -> int {
        match self {
            FromIsize::Positive(n) => n as int,
            FromIsize::Negative(n) => -(n as int),
        }
    }

    /// Splits `src`: positive numbers are `Positive`, zero and negative
    /// numbers `Negative`, each with the magnitude of `src`. The magnitude of
    /// `isize::MIN` overflows the negation, so it is outside what this takes.
    pub fn new(src: isize) -> (r: Self)
        requires
            src != isize::MIN,
        ensures
            r == split_isize(src),
            r.value() == src,
    {
        if src > 0 {
            FromIsize::Positive(src as usize)
        } else {
            FromIsize::Negative((-src) as usize)
        }
    }

    /// `target` moved by the number: `target + n` or `target - n`, which must
    /// stay within `usize`.
    pub fn add(&self, target: usize) -> (r: usize)
        requires
            0 <= target + self.value() <= usize::MAX,
        ensures
            r == target + self.value(),
    {
        match self {
            FromIsize::Positive(number) => target + number,
            FromIsize::Negative(number) => target - number,
        }
    }
}

/// Splitting a number and moving an address by the parts moves the address
/// by the number itself.
pub proof fn law_split_then_add(src: isize, target: usize)
    requires
        src != isize::MIN,
    ensures
        target + split_isize(src).value() == target + src,
{
}

} // verus!
