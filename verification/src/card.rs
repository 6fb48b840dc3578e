//! What the catalog says of a card.

use vstd::prelude::*;
use crate::cost::ManaCost;
use crate::ident::Ident;
use crate::pt::PtCharacteristic;
use crate::types::{CardSubtype, CardSupertype, CardType};

verus! {

/// The characteristics of one card of the catalog.
#[derive(Clone, Debug)]
pub struct CardDescriptor {
    pub name: Ident,
    pub types: Vec<CardType>,
    pub supertypes: Vec<CardSupertype>,
    pub subtypes: Vec<CardSubtype>,
    pub mana_cost: Option<ManaCost>,
    pub image: Option<String>,
    pub pt: Option<PtCharacteristic>,
}

} // verus!
