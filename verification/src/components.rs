//! The components that an entity of the store can carry.

use vstd::prelude::*;
use crate::cost::ManaCost;
use crate::counters::Counter;
use crate::entity::EntityId;
use crate::ident::Ident;
use crate::mana_pool::ManaId;
use crate::object_db::CardId;
use crate::player::PlayerId;
use crate::pt::PtCharacteristic;
use crate::target::Target;
use crate::types::{CardSubtype, CardSupertype, CardType};
use crate::zone::ZoneId;

verus! {

/// A game object: a card, a spell, a permanent.
#[derive(Clone, Debug)]
pub struct Object {
    pub name: Ident,
    pub types: Vec<CardType>,
    pub supertypes: Vec<CardSupertype>,
    pub subtypes: Vec<CardSubtype>,
    pub pt: Option<PtCharacteristic>,
    pub mana_cost: Option<ManaCost>,
    /// The zone the object is in.
    pub zone: ZoneId,
    pub owner: PlayerId,
    pub controller: Option<PlayerId>,
}

/// Marks an effect that ends at the next cleanup step.
#[derive(Clone, Copy, Debug, PartialEq, Eq, Structural)]
pub struct UntilEotEffect;

/// Ties the life of an entity to that of another: once `target` is gone,
/// the entity goes too.
#[derive(Clone, Copy, Debug, PartialEq, Eq, Structural)]
pub struct AttachedToEntity {
    pub target: EntityId,
}

/// Marks an object that a card of the catalog stands behind.
#[derive(Clone, Copy, Debug, PartialEq, Eq, Structural)]
pub struct Card {
    pub id: CardId,
}

/// A spell that is being cast: where it came from, what it costs, and the
/// mana handed over so far, the unit at place `i` for the cost item at `i`.
#[derive(Clone, Debug)]
pub struct IncompleteSpell {
    pub previous_zone: ZoneId,
    pub total_cost: ManaCost,
    pub mana_paid: Vec<ManaId>,
    pub targets: Vec<Target>,
}

impl IncompleteSpell {
    /// A spell that came from `previous_zone`, costs `total_cost` and has
    /// nothing paid yet.
    pub fn new(previous_zone: ZoneId, total_cost: ManaCost) -> (spell: Self)
        ensures
            spell.previous_zone == previous_zone,
            spell.total_cost == total_cost,
            spell.mana_paid@ == Seq::<ManaId>::empty(),
            spell.targets@ == Seq::<Target>::empty(),
    {
        IncompleteSpell { previous_zone, total_cost, mana_paid: Vec::new(), targets: Vec::new() }
    }
}

/// The targets of a spell on the stack.
#[derive(Clone, Debug)]
pub struct Spell {
    pub targets: Vec<EntityId>,
}

/// Marks an object on the battlefield.
#[derive(Clone, Copy, Debug, PartialEq, Eq, Structural)]
pub struct Permanent {
    pub tapped: bool,
}

/// Marks a creature.
#[derive(Clone, Copy, Debug, PartialEq, Eq, Structural)]
pub struct Creature;

/// Marks a land.
#[derive(Clone, Copy, Debug, PartialEq, Eq, Structural)]
pub struct Land;

/// The counters on an object.
#[derive(Clone, Debug)]
pub struct Counters {
    pub counters: Vec<Counter>,
}

/// Damage marked on a permanent.
#[derive(Clone, Copy, Debug, PartialEq, Eq, Structural)]
pub struct Damage {
    pub amount: u64,
}

} // verus!
