//! The combat phase: its steps, and the declaration of attackers and
//! blockers.

use vstd::prelude::*;
use crate::action::PlayerActionCategory;
use crate::components::Permanent;
use crate::entity::EntityId;
use crate::game::state_based_actions::{players_evolved, settled_view};
use crate::game::turn::granted;
use crate::game::{Game, GameState};
use crate::player::PlayerId;
use crate::store::{get_object, get_permanent, insert_permanent, world_contains, Facets};
use crate::types::{has_type, CardType};

verus! {

/// Enters the beginning of combat: the active player gets priority.
pub fn enter_begin_combat(game: &mut Game)
    requires
        old(game).wf(),
    ensures
        final(game).wf(),
        final(game).state == granted(old(game).state, final(game).players.inner@, old(game).active_player),
        settled_view(old(game).view(), final(game).view()),
        players_evolved(old(game).players.inner@, final(game).players.inner@, true, false),
        crate::zone::zones_pruned(old(game).zones, final(game).zones, final(game).view().dom()),
        final(game).object_db == old(game).object_db,
        final(game).next_timestamp == old(game).next_timestamp,
        final(game).turn_number == old(game).turn_number,
        final(game).active_player == old(game).active_player,
        final(game).step == old(game).step,
        final(game).players_that_have_passed == old(game).players_that_have_passed,
{
    let active = game.active_player;
    game.give_priority(active);
}

/// Enters the declare attackers step: the game waits for the active player
/// to choose attackers.
pub fn enter_declare_attackers(game: &mut Game)
    ensures
        *final(game) == (Game {
            state: GameState::Player {
                player: old(game).active_player,
                action: PlayerActionCategory::ChooseAttackers,
            },
            ..*old(game)
        }),
{
    game.state = GameState::Player {
        player: game.active_player,
        action: PlayerActionCategory::ChooseAttackers,
    };
}

/// Enters the declare blockers step: the game waits for the player after
/// the active player to choose blockers.
pub fn enter_declare_blockers(game: &mut Game)
    requires
        old(game).wf(),
    ensures
        *final(game) == (Game {
            state: GameState::Player {
                player: old(game).next_player(old(game).active_player),
                action: PlayerActionCategory::ChooseBlockers,
            },
            ..*old(game)
        }),
{
    let nap = game.players.player_after(game.active_player);
    game.state = GameState::Player { player: nap, action: PlayerActionCategory::ChooseBlockers };
}

/// Enters the combat damage step: the active player gets priority.
pub fn enter_combat_damage(game: &mut Game)
    requires
        old(game).wf(),
    ensures
        final(game).wf(),
        final(game).state == granted(old(game).state, final(game).players.inner@, old(game).active_player),
        settled_view(old(game).view(), final(game).view()),
        players_evolved(old(game).players.inner@, final(game).players.inner@, true, false),
        crate::zone::zones_pruned(old(game).zones, final(game).zones, final(game).view().dom()),
        final(game).object_db == old(game).object_db,
        final(game).next_timestamp == old(game).next_timestamp,
        final(game).turn_number == old(game).turn_number,
        final(game).active_player == old(game).active_player,
        final(game).step == old(game).step,
        final(game).players_that_have_passed == old(game).players_that_have_passed,
{
    let active = game.active_player;
    game.give_priority(active);
}

/// Enters the end of combat step: the active player gets priority.
pub fn enter_end_combat(game: &mut Game)
    requires
        old(game).wf(),
    ensures
        final(game).wf(),
        final(game).state == granted(old(game).state, final(game).players.inner@, old(game).active_player),
        settled_view(old(game).view(), final(game).view()),
        players_evolved(old(game).players.inner@, final(game).players.inner@, true, false),
        crate::zone::zones_pruned(old(game).zones, final(game).zones, final(game).view().dom()),
        final(game).object_db == old(game).object_db,
        final(game).next_timestamp == old(game).next_timestamp,
        final(game).turn_number == old(game).turn_number,
        final(game).active_player == old(game).active_player,
        final(game).step == old(game).step,
        final(game).players_that_have_passed == old(game).players_that_have_passed,
{
    let active = game.active_player;
    game.give_priority(active);
}

/// Why an entity may not be declared as an attacker.
#[derive(Clone, Copy, Debug, PartialEq, Eq, Structural)]
pub enum AttackError {
    /// The entity does not exist.
    NoSuchEntity(EntityId),
    /// The entity is no object.
    NotAnObject(EntityId),
    /// The declaring player does not control the object.
    NotControlled(EntityId),
    /// The object is not on the battlefield.
    NotPermanent(EntityId),
    /// The object is no creature.
    NotCreature(EntityId),
    /// The creature is tapped.
    Tapped(EntityId),
}

/// Why `player` may not declare `id` as an attacker, if anything stands
/// against it.
pub open spec fn attacker_fault(view: Map<EntityId, Facets>, player: PlayerId, id: EntityId) -> Option<AttackError> {
    if !view.dom().contains(id) {
        Some(AttackError::NoSuchEntity(id))
    } else if view[id].object.is_none() {
        Some(AttackError::NotAnObject(id))
    } else if view[id].object.unwrap().controller != Some(player) {
        Some(AttackError::NotControlled(id))
    } else if view[id].permanent.is_none() {
        Some(AttackError::NotPermanent(id))
    } else if !view[id].object.unwrap().types@.contains(CardType::Creature) {
        Some(AttackError::NotCreature(id))
    } else if view[id].permanent.unwrap().tapped {
        Some(AttackError::Tapped(id))
    } else {
        None
    }
}

/// The fault of the first of `attackers` from place `from` on that has
/// one.
pub open spec fn declaration_fault(view: Map<EntityId, Facets>, player: PlayerId, attackers: Seq<EntityId>, from: int) -> Option<AttackError>
    decreases attackers.len() - from,
{
    if from < 0 || from >= attackers.len() {
        None
    } else if attacker_fault(view, player, attackers[from]).is_some() {
        attacker_fault(view, player, attackers[from])
    } else {
        declaration_fault(view, player, attackers, from + 1)
    }
}

/// Where a declaration has no fault, none of its attackers has one.
pub proof fn lemma_faultless(view: Map<EntityId, Facets>, player: PlayerId, attackers: Seq<EntityId>, from: int)
    requires
        0 <= from,
        declaration_fault(view, player, attackers, from).is_none(),
    ensures
        forall|i: int| from <= i < attackers.len() ==> attacker_fault(view, player, #[trigger] attackers[i]).is_none(),
    decreases attackers.len() - from,
{
    if from < attackers.len() {
        lemma_faultless(view, player, attackers, from + 1);
    }
}

/// Checks that `player` may declare every one of `attackers`: each exists,
/// is an object that the player controls, is a permanent, is a creature,
/// and is untapped. The first that fails is named.
pub fn attackers_valid(game: &Game, player: PlayerId, attackers: &Vec<EntityId>) -> (checked: Result<(), AttackError>)
    ensures
        checked == (match declaration_fault(game.view(), player, attackers@, 0) {
            Some(fault) => Err::<(), AttackError>(fault),
            None => Ok::<(), AttackError>(()),
        }),
{
    let mut i: usize = 0;
    while i < attackers.len()
        invariant
            i <= attackers.len(),
            declaration_fault(game.view(), player, attackers@, 0) == declaration_fault(
                game.view(),
                player,
                attackers@,
                i as int,
            ),
        decreases attackers.len() - i,
    {
        let attacker = attackers[i];
        if !world_contains(&game.world, attacker) {
            return Err(AttackError::NoSuchEntity(attacker));
        }
        let object = match get_object(&game.world, attacker) {
            Some(object) => object,
            None => {
                return Err(AttackError::NotAnObject(attacker));
            },
        };
        if object.controller != Some(player) {
            return Err(AttackError::NotControlled(attacker));
        }
        let permanent = match get_permanent(&game.world, attacker) {
            Some(permanent) => permanent,
            None => {
                return Err(AttackError::NotPermanent(attacker));
            },
        };
        if !has_type(&object.types, CardType::Creature) {
            return Err(AttackError::NotCreature(attacker));
        }
        if permanent.tapped {
            return Err(AttackError::Tapped(attacker));
        }
        i += 1;
    }
    Ok(())
}

/// `view` with every one of `attackers` tapped.
pub open spec fn tapped_view(view: Map<EntityId, Facets>, attackers: Seq<EntityId>) -> Map<EntityId, Facets> {
    Map::new(
        |id: EntityId| view.dom().contains(id),
        |id: EntityId|
            if attackers.contains(id) {
                Facets { permanent: Some(Permanent { tapped: true }), ..view[id] }
            } else {
                view[id]
            },
    )
}

/// Whether `after` is `before` with `attackers` declared by `player`:
/// where the game waits for that declaration and no attacker has a fault,
/// every attacker is tapped and a round of priority has begun with the
/// active player; otherwise nothing differs.
pub open spec fn attackers_chosen(before: &Game, after: &Game, player: PlayerId, attackers: Seq<EntityId>) -> bool {
    if before.state == (GameState::Player { player, action: PlayerActionCategory::ChooseAttackers })
        && declaration_fault(before.view(), player, attackers, 0).is_none() {
        &&& settled_view(tapped_view(before.view(), attackers), after.view())
        &&& round_begun(before, after)
    } else {
        *after == *before
    }
}

/// Whether, the store apart, `after` is `before` with a round of priority
/// begun with the active player.
pub open spec fn round_begun(before: &Game, after: &Game) -> bool {
    &&& after.state == granted(before.state, after.players.inner@, before.active_player)
    &&& after.players_that_have_passed@ == Seq::<PlayerId>::empty()
    &&& players_evolved(before.players.inner@, after.players.inner@, true, false)
    &&& crate::zone::zones_pruned(before.zones, after.zones, after.view().dom())
    &&& after.object_db == before.object_db
    &&& after.next_timestamp == before.next_timestamp
    &&& after.turn_number == before.turn_number
    &&& after.active_player == before.active_player
    &&& after.step == before.step
}

/// Declares `attackers` for `player`. A declaration with a fault is
/// refused as a whole: no attacker of it is tapped.
pub fn choose_attackers(game: &mut Game, player: PlayerId, attackers: &Vec<EntityId>)
    requires
        old(game).wf(),
    ensures
        final(game).wf(),
        attackers_chosen(old(game), final(game), player, attackers@),
{
    let required_state = GameState::Player { player, action: PlayerActionCategory::ChooseAttackers };
    if game.state != required_state {
        return ;
    }
    match attackers_valid(game, player, attackers) {
        Err(_) => {
            return ;
        },
        Ok(_) => {},
    }
    let ghost before = game.view();
    proof {
        lemma_faultless(before, player, attackers@, 0);
    }
    let mut i: usize = 0;
    while i < attackers.len()
        invariant
            i <= attackers.len(),
            before == old(game).view(),
            game.view() == tapped_view(before, attackers@.subrange(0, i as int)),
            game.zones == old(game).zones,
            game.same_course(old(game)),
            forall|j: int| 0 <= j < attackers@.len() ==> attacker_fault(before, player, #[trigger] attackers@[j]).is_none(),
        decreases attackers.len() - i,
    {
        insert_permanent(&mut game.world, attackers[i], Permanent { tapped: true });
        proof {
            let done = attackers@.subrange(0, i as int);
            let more = attackers@.subrange(0, i as int + 1);
            let attacker = attackers@[i as int];
            assert(attacker_fault(before, player, attacker).is_none());
            assert(more == done.push(attacker));
            assert forall|id: EntityId| more.contains(id) <==> (done.contains(id) || id == attacker) by {
                crate::zone::lemma_pushed(done, attacker, id);
            }
            assert(game.view() =~= tapped_view(before, more));
        }
        i += 1;
    }
    proof {
        assert(attackers@.subrange(0, i as int) == attackers@);
        let after = game.view();
        assert(crate::game::zones_index(game.zones, after)) by {
            assert forall|zone: crate::zone::ZoneId, id: EntityId| game.zones.has(zone) implies (
            #[trigger] game.zones.members(zone).contains(id) <==> crate::game::in_zone(after, id, zone)) by {
                assert(old(game).zones.members(zone).contains(id) <==> crate::game::in_zone(before, id, zone));
            }
        }
    }
    let active = game.active_player;
    game.start_priority_round(active);
}

/// Checks a declaration of blockers. Every declaration is accepted: no
/// rule on blockers is enforced yet.
pub fn blockers_valid(game: &Game, player: PlayerId, blockers: &Vec<EntityId>) -> (checked: Result<(), AttackError>)
    ensures
        checked == Ok::<(), AttackError>(()),
{
    Ok(())
}

/// Whether `after` is `before` with blockers declared by `player`: where
/// the game waits for that declaration, a round of priority has begun with
/// the active player; otherwise nothing differs.
pub open spec fn blockers_chosen(before: &Game, after: &Game, player: PlayerId) -> bool {
    if before.state == (GameState::Player { player, action: PlayerActionCategory::ChooseBlockers }) {
        &&& settled_view(before.view(), after.view())
        &&& round_begun(before, after)
    } else {
        *after == *before
    }
}

/// Declares `blockers` for `player`.
pub fn choose_blockers(game: &mut Game, player: PlayerId, blockers: &Vec<EntityId>)
    requires
        old(game).wf(),
    ensures
        final(game).wf(),
        blockers_chosen(old(game), final(game), player),
{
    let required_state = GameState::Player { player, action: PlayerActionCategory::ChooseBlockers };
    if game.state != required_state {
        return ;
    }
    match blockers_valid(game, player, blockers) {
        Err(_) => {
            return ;
        },
        Ok(_) => {},
    }
    let active = game.active_player;
    game.start_priority_round(active);
}

} // verus!
