//! Helpers for driving a game.

use vstd::prelude::*;
use crate::action::{PlayerAction, PlayerActionCategory};
use crate::entity::EntityId;
use crate::game::combat::{attackers_chosen, blockers_chosen};
use crate::game::{Game, GameState};

verus! {

/// Whether `after` is `before` moved on by the player it waits for doing
/// as little as can be done: passing priority, or declaring no attackers
/// or no blockers. A game that is over stays as it is.
pub open spec fn advanced_idly(before: &Game, after: &Game) -> bool {
    match before.state {
        GameState::Player { player, action: PlayerActionCategory::Priority } => after.priority_passed(
            before,
            player,
        ),
        GameState::Player { player, action: PlayerActionCategory::ChooseAttackers } => attackers_chosen(
            before,
            after,
            player,
            Seq::<EntityId>::empty(),
        ),
        GameState::Player { player, action: PlayerActionCategory::ChooseBlockers } => blockers_chosen(
            before,
            after,
            player,
        ),
        _ => *after == *before,
    }
}

/// Moves the game on with no player doing anything of note. The game must
/// not be waiting for a player to pay for a spell: there nothing can be
/// done that does nothing.
pub fn advance_with_no_actions(game: &mut Game)
    requires
        old(game).wf(),
        old(game).turn_number < u64::MAX,
        !(old(game).state matches GameState::Player {
            action: PlayerActionCategory::SpellManaAbilities,
            ..
        }),
        !(old(game).state matches GameState::Player { action: PlayerActionCategory::SpellPayingCost, .. }),
    ensures
        final(game).wf(),
        advanced_idly(old(game), final(game)),
{
    let state = game.state;
    match state {
        GameState::Player { player, action } => match action {
            PlayerActionCategory::Priority => game.do_action(player, PlayerAction::PassPriority),
            PlayerActionCategory::ChooseAttackers => {
                let attackers: Vec<EntityId> = Vec::new();
                game.do_action(player, PlayerAction::ChooseAttackers { attackers })
            },
            PlayerActionCategory::ChooseBlockers => {
                let blockers: Vec<EntityId> = Vec::new();
                game.do_action(player, PlayerAction::ChooseBlockers { blockers })
            },
            _ => {},
        },
        GameState::Complete(_) => {},
    }
}

} // verus!
