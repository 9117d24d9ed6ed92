//! How the library came to have a console.

use vstd::prelude::*;

verus! {

/// Attached to the parent process's console, or allocated a new one.
#[derive(Debug, Clone, Copy, PartialEq, Eq, PartialOrd, Ord, Structural)]
pub enum Type {
    Attach,
    Alloc,
}

} // verus!
