//! The names that the passes look for. The host's interner gives these
//! names their numbers, and every other name a number from `FIRST_FREE` on.

use vstd::prelude::*;

verus! {

/// `new`
pub const NEW: u32 = 0;

/// `Fn`
pub const FN: u32 = 1;

/// `FnMut`
pub const FN_MUT: u32 = 2;

/// `FnOnce`
pub const FN_ONCE: u32 = 3;

/// `Output`
pub const OUTPUT: u32 = 4;

/// `with_hi`
pub const WITH_HI: u32 = 5;

/// `lo`
pub const LO: u32 = 6;

/// The first number that stands for no name of the list above.
pub const FIRST_FREE: u32 = 7;

} // verus!
