//! The opaque identity of a user or caller.

use vstd::prelude::*;

verus! {

/// An opaque identity handle, unique per user or caller.
///
/// The surrounding system hands out identities; the marketplace only ever
/// compares them for equality and uses them as map keys, so a single
/// numeric handle is all the stores need to carry.
#[derive(Clone, Copy, PartialEq, Eq, Hash, Debug, Structural)]
pub struct Principal {
    pub id: u64,
}

impl Principal {
    /// Wraps a raw identity handle.
    pub fn new(id: u64) -> (p: Principal)
        ensures
            p.id == id,
    {
        Principal { id }
    }
}

} // verus!
