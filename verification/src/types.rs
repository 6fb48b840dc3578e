//! Card types, supertypes and subtypes.

use vstd::prelude::*;
use crate::ident::Ident;

verus! {

/// The supertypes a card can have.
#[derive(Clone, Copy, Debug, PartialEq, Eq, Structural)]
pub enum CardSupertype {
    Basic,
    Legendary,
    Ongoing,
    Snow,
    World,
}

/// The card types.
#[derive(Clone, Copy, Debug, PartialEq, Eq, Structural)]
pub enum CardType {
    Artifact,
    Conspiracy,
    Creature,
    Enchantment,
    Instant,
    Land,
    Phenomenon,
    Plane,
    Planeswalker,
    Scheme,
    Sorcery,
    Tribal,
    Vanguard,
}

/// A subtype, known by its name only.
#[derive(Clone, Debug)]
pub struct CardSubtype {
    pub name: Ident,
}

/// Whether `wanted` occurs in `types`.
pub fn has_type(types: &Vec<CardType>, wanted: CardType) -> (found: bool)
    ensures
        found == types@.contains(wanted),
{
    let mut i: usize = 0;
    while i < types.len()
        invariant
            i <= types.len(),
            forall|j: int| 0 <= j < i ==> types@[j] != wanted,
        decreases types.len() - i,
    {
        if types[i] == wanted {
            return true;
        }
        i += 1;
    }
    false
}

/// An element-for-element copy of a vector of plain values.
pub fn copy_vec<T: Copy>(items: &Vec<T>) -> (out: Vec<T>)
    ensures
        out@ == items@,
{
    let mut out: Vec<T> = Vec::new();
    let mut i: usize = 0;
    while i < items.len()
        invariant
            i <= items.len(),
            out@ == items@.subrange(0, i as int),
        decreases items.len() - i,
    {
        out.push(items[i]);
        i += 1;
    }
    assert(items@.subrange(0, items.len() as int) == items@);
    out
}

} // verus!
