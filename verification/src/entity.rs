//! Handles of the entities in the object store.

use vstd::prelude::*;

verus! {

/// The handle of an entity in the store, held as the 64-bit pattern of the
/// `hecs::Entity` it stands for. A handle stays valid to hold after its
/// entity is gone; it then simply names nothing.
#[derive(Clone, Copy, Debug, PartialEq, Eq, Structural, Hash)]
pub struct EntityId(pub u64);

impl EntityId {
    /// The raw bit pattern of the handle.
    pub fn to_bits(&self) -> (bits: u64)
        ensures
            bits == self.0,
    {
        self.0
    }
}

} // verus!
