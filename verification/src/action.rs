//! The actions that players take.

use vstd::prelude::*;
use crate::entity::EntityId;
use crate::mana_pool::ManaId;

verus! {

/// An action that a player asks the game to take.
#[derive(Debug)]
pub enum PlayerAction {
    /// Leave the game; the other player wins.
    Concede,
    PassPriority,
    ChooseAttackers { attackers: Vec<EntityId> },
    ChooseBlockers { blockers: Vec<EntityId> },
    /// Put a land onto the battlefield.
    PlayLand { card: EntityId },
    /// Put a spell on the stack and begin to pay for it.
    StartCastingSpell { spell: EntityId },
    /// Pay the next item of the cost of a spell that is being cast.
    PayIncompleteSpellMana { spell: EntityId, mana: ManaId },
    FinishCastingSpell { spell: EntityId },
    CancelCastingSpell { spell: EntityId },
}

/// What the game is waiting for a player to do.
#[derive(Clone, Copy, Debug, PartialEq, Eq, Structural)]
pub enum PlayerActionCategory {
    /// The player has priority.
    Priority,
    ChooseAttackers,
    ChooseBlockers,
    /// The player may activate mana abilities to pay for a spell.
    SpellManaAbilities,
    /// The player is paying the costs of a spell.
    SpellPayingCost,
}

} // verus!
