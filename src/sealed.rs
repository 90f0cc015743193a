//! Seal on the record item types: the trait lives in a private module, so no
//! type outside this crate can become a record item.

use vstd::prelude::*;

verus! {

/// Marks the item types a record may hold.
pub trait Sealed {}

impl Sealed for u32 {}

impl Sealed for u64 {}

} // verus!
