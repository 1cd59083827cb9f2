//! The stack's storage: containers with a compile-time bound.

use vstd::prelude::*;

use crate::text;

pub mod slab;

pub use crate::storage::slab::Slab;

verus! {

/// A table, slab or queue has no room for another item.
#[derive(Debug, Clone, Copy, PartialEq, Eq, Structural)]
pub struct Full;

impl Full {
    /// The error in words.
    pub fn text(&self) -> (r: String)
        ensures
            r@ == "full"@,
    {
        text::owned("full")
    }
}

} // verus!
