//! Facts about the platform that the rest of the library builds on.

use vstd::prelude::*;

verus! {

/// The width in bytes of the platform's pointers, used as the fixed width of a
/// length prefix in a packed buffer.
pub const PTRLEN: usize = (usize::BITS / 8) as usize;

} // verus!
