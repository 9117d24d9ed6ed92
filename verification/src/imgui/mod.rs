//! What the overlay decides each frame about unloading itself.

use vstd::prelude::*;

verus! {

/// One frame's step of the unload latch: whether the unload starts now, and
/// the latch afterwards. It starts when the unload key is pressed and no
/// unload has started yet.
pub open spec fn unload_step(unloading: bool, home_pressed: bool) -> (bool, bool) {
    (home_pressed && !unloading, unloading || home_pressed)
}

/// Sets the unload latch when the unload key is pressed; returns whether
/// this call is the one that starts the unload.
pub fn begin_unload(unloading: &mut bool, home_pressed: bool) -> (start: bool)
    ensures
        (start, *final(unloading)) == unload_step(*old(unloading), home_pressed),
{
    if home_pressed && !*unloading {
        *unloading = true;
        true
    } else {
        false
    }
}

/// Once an unload has started, no later frame starts another.
pub proof fn law_unload_starts_once(unloading: bool, first: bool, second: bool)
    ensures
        unload_step(unloading, first).0 ==> !unload_step(unload_step(unloading, first).1, second).0,
        unloading ==> !unload_step(unloading, first).0,
        !unloading && first ==> unload_step(unloading, first).0 && unload_step(
            unloading,
            first,
        ).1,
        !first ==> !unload_step(unloading, first).0 && unload_step(unloading, first).1
            == unloading,
{
}

} // verus!
