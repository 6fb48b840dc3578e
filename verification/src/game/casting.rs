//! Casting a spell: putting it on the stack, paying for it item by item,
//! and finishing or cancelling the cast.

use vstd::prelude::*;
use crate::action::PlayerActionCategory;
use crate::components::IncompleteSpell;
use crate::cost::CostItem;
use crate::entity::EntityId;
use crate::game::state_based_actions::settled_view;
use crate::game::turn::granted;
use crate::game::{moved_view, zones_moved, Game, GameState, Step};
use crate::mana_pool::{holds_mana_id, unit_at, unspent, Mana, ManaId};
use crate::player::{Player, PlayerId};
use crate::store::{
    get_incomplete, get_object, insert_incomplete, remove_incomplete, Facets,
};
use crate::types::{has_type, CardType};
use crate::zone::ZoneId;

verus! {

/// Why a step of casting a spell is refused.
#[derive(Clone, Copy, Debug, PartialEq, Eq, Structural)]
pub enum CastError {
    /// The player is not in the game.
    InvalidPlayer,
    /// The spell is no object.
    NotAnObject,
    /// The spell is not being cast.
    NotIncomplete,
    /// The player does not have priority.
    NoPriority,
    /// The spell is no instant and the stack is not empty.
    StackNotEmpty,
    /// The spell is no instant and it is not a main phase.
    NotMainPhase,
    /// The spell is not in the player's hand.
    NotInHand,
    /// The spell has no mana cost.
    NoManaCost,
    /// The player does not control the spell.
    NotController,
    /// The mana handle names no unit of the player's pool: none was added
    /// under it, or the unit is spent.
    InvalidMana,
    /// The unit of mana pays for an earlier item already.
    AlreadySpent,
    /// Every item of the cost has its payment.
    NothingToPay,
    /// The unit of mana does not pay the item it is meant for.
    WrongMana,
    /// The item at this place of the cost has no payment yet.
    Unpaid,
}

/// The components of `id` where it is alive, those of a bare entity where
/// it is not.
pub open spec fn facets_at(view: Map<EntityId, Facets>, id: EntityId) -> Facets {
    if view.dom().contains(id) {
        view[id]
    } else {
        Facets::bare()
    }
}

/// Why `player` may not begin to cast `spell`, if anything stands against
/// it; the checks come in the order of the variants named here.
pub open spec fn start_fault(game: &Game, player: PlayerId, spell: EntityId) -> Option<CastError> {
    let facets = facets_at(game.view(), spell);
    if facets.object.is_none() {
        Some(CastError::NotAnObject)
    } else if game.priority_holder() != Some(player) {
        Some(CastError::NoPriority)
    } else if !facets.object.unwrap().types@.contains(CardType::Instant) && !game.stack_empty() {
        Some(CastError::StackNotEmpty)
    } else if !facets.object.unwrap().types@.contains(CardType::Instant) && game.step != Step::Main1
        && game.step != Step::Main2 {
        Some(CastError::NotMainPhase)
    } else if facets.object.unwrap().zone != ZoneId::Hand(player) {
        Some(CastError::NotInHand)
    } else if facets.object.unwrap().mana_cost.is_none() {
        Some(CastError::NoManaCost)
    } else {
        None
    }
}

/// Checks whether `player` may begin to cast `spell`; where so, hands out
/// the spell's cost.
pub fn check_start(game: &Game, player: PlayerId, spell: EntityId) -> (checked: Result<crate::cost::ManaCost, CastError>)
    ensures
        match start_fault(game, player, spell) {
            Some(fault) => checked == Err::<crate::cost::ManaCost, CastError>(fault),
            None => checked.is_ok() && checked.unwrap().items@ == game.view()[spell].object.unwrap().mana_cost.unwrap().items@,
        },
{
    let spell_object = match get_object(&game.world, spell) {
        Some(object) => object,
        None => {
            return Err(CastError::NotAnObject);
        },
    };
    if game.priority_player() != Some(player) {
        return Err(CastError::NoPriority);
    }
    if !has_type(&spell_object.types, CardType::Instant) {
        let stack_is_empty = match game.zones.get(ZoneId::Stack) {
            Some(stack) => stack.is_empty(),
            None => true,
        };
        if !stack_is_empty {
            return Err(CastError::StackNotEmpty);
        }
        if game.step != Step::Main1 && game.step != Step::Main2 {
            return Err(CastError::NotMainPhase);
        }
    }
    if spell_object.zone != ZoneId::Hand(player) {
        return Err(CastError::NotInHand);
    }
    match spell_object.mana_cost {
        Some(mana_cost) => Ok(mana_cost),
        None => Err(CastError::NoManaCost),
    }
}

/// Whether `after` is `before` with the cast of `spell` cancelled: where
/// `spell` is an object that is being cast, it is being cast no longer and
/// is back in the zone it came from, if that zone exists and is not the
/// one it is in; otherwise nothing differs.
pub open spec fn cancelled(before: &Game, after: &Game, spell: EntityId) -> bool {
    let facets = facets_at(before.view(), spell);
    if facets.object.is_some() && facets.incomplete.is_some() {
        let plain = before.view().insert(spell, (Facets { incomplete: None, ..facets }));
        let back = facets.incomplete.unwrap().previous_zone;
        &&& after.same_course(before)
        &&& if before.moves(spell, back) {
            &&& after.view() == moved_view(plain, spell, back)
            &&& zones_moved(before.zones, after.zones, spell, facets.object.unwrap().zone, back)
        } else {
            &&& after.view() == plain
            &&& after.zones == before.zones
        }
    } else {
        *after == *before
    }
}

/// Cancels the cast of `spell`.
pub fn cancel_casting_spell(game: &mut Game, player: PlayerId, spell: EntityId)
    requires
        old(game).wf(),
    ensures
        final(game).wf(),
        cancelled(old(game), final(game), spell),
{
    let spell_object = match get_object(&game.world, spell) {
        Some(object) => object,
        None => {
            return ;
        },
    };
    let spell_incomplete = match get_incomplete(&game.world, spell) {
        Some(incomplete) => incomplete,
        None => {
            return ;
        },
    };
    let current_zone = spell_object.zone;
    let previous_zone = spell_incomplete.previous_zone;
    remove_incomplete(&mut game.world, spell);
    proof {
        let before = old(game).view();
        let after = game.view();
        assert(crate::game::zones_index(game.zones, after)) by {
            assert forall|zone: ZoneId, id: EntityId| game.zones.has(zone) implies (
            #[trigger] game.zones.members(zone).contains(id) <==> crate::game::in_zone(after, id, zone)) by {
                assert(old(game).zones.members(zone).contains(id) <==> crate::game::in_zone(before, id, zone));
            }
        }
    }
    if current_zone != previous_zone {
        game.move_object_to_zone(spell, previous_zone);
    }
}

/// Whether `after` is `before` with `player` having begun to cast `spell`:
/// where nothing stands against it, the spell is on the stack, controlled
/// by its owner, with its cost recorded and nothing paid, and the game
/// waits for `player` to pay; where something does, the cast is cancelled.
pub open spec fn cast_started(before: &Game, after: &Game, player: PlayerId, spell: EntityId) -> bool {
    if start_fault(before, player, spell).is_none() {
        let moved = moved_view(before.view(), spell, ZoneId::Stack);
        &&& after.view().dom() == before.view().dom()
        &&& after.view().remove(spell) == before.view().remove(spell)
        &&& (Facets { incomplete: None, ..after.view()[spell] }) == (Facets {
            incomplete: None,
            ..moved[spell]
        })
        &&& after.view()[spell].incomplete matches Some(incomplete)
        &&& incomplete.previous_zone == ZoneId::Hand(player)
        &&& incomplete.total_cost.items@ == before.view()[spell].object.unwrap().mana_cost.unwrap().items@
        &&& incomplete.mana_paid@ == Seq::<ManaId>::empty()
        &&& incomplete.targets@ == Seq::<crate::target::Target>::empty()
        &&& zones_moved(before.zones, after.zones, spell, ZoneId::Hand(player), ZoneId::Stack)
        &&& after.state == (GameState::Player {
            player,
            action: PlayerActionCategory::SpellManaAbilities,
        })
        &&& after.players == before.players
        &&& after.object_db == before.object_db
        &&& after.next_timestamp == before.next_timestamp
        &&& after.turn_number == before.turn_number
        &&& after.players_that_have_passed == before.players_that_have_passed
        &&& after.active_player == before.active_player
        &&& after.step == before.step
    } else {
        cancelled(before, after, spell)
    }
}

/// Begins the cast of `spell` by `player`. Every check is made before
/// anything is changed.
pub fn start_casting_spell(game: &mut Game, player: PlayerId, spell: EntityId)
    requires
        old(game).wf(),
    ensures
        final(game).wf(),
        cast_started(old(game), final(game), player, spell),
{
    match check_start(game, player, spell) {
        Ok(total_cost) => {
            let previous_zone = ZoneId::Hand(player);
            game.move_object_to_zone(spell, ZoneId::Stack);
            game.state = GameState::Player {
                player,
                action: PlayerActionCategory::SpellManaAbilities,
            };
            let ghost moved = game.view();
            insert_incomplete(&mut game.world, spell, IncompleteSpell::new(previous_zone, total_cost));
            proof {
                let after = game.view();
                assert(after.remove(spell) =~= old(game).view().remove(spell));
                assert(after.dom() =~= old(game).view().dom());
                assert(crate::game::zones_index(game.zones, after)) by {
                    assert forall|zone: ZoneId, id: EntityId| game.zones.has(zone) implies (
                    #[trigger] game.zones.members(zone).contains(id) <==> crate::game::in_zone(after, id, zone)) by {
                        assert(game.zones.members(zone).contains(id) <==> crate::game::in_zone(moved, id, zone));
                    }
                }
            }
        },
        Err(_) => {
            cancel_casting_spell(game, player, spell);
        },
    }
}

/// Why `player` may not pay the next item of the cost of `spell` with
/// `mana_id`, if anything stands against it.
pub open spec fn pay_fault(game: &Game, player: PlayerId, spell: EntityId, mana_id: ManaId) -> Option<CastError> {
    let facets = facets_at(game.view(), spell);
    if (player.0 as int) >= game.players.inner@.len() {
        Some(CastError::InvalidPlayer)
    } else if facets.object.is_none() {
        Some(CastError::NotAnObject)
    } else if facets.incomplete.is_none() {
        Some(CastError::NotIncomplete)
    } else if facets.object.unwrap().controller != Some(player) {
        Some(CastError::NotController)
    } else {
        let pool = game.players.inner@[player.0 as int].mana_pool@;
        let paid = facets.incomplete.unwrap().mana_paid@;
        let cost = facets.incomplete.unwrap().total_cost.items@;
        if unit_at(pool, mana_id).is_none() {
            Some(CastError::InvalidMana)
        } else if paid.contains(mana_id) {
            Some(CastError::AlreadySpent)
        } else if paid.len() >= cost.len() {
            Some(CastError::NothingToPay)
        } else if !cost[paid.len() as int].accepts(unit_at(pool, mana_id).unwrap()) {
            Some(CastError::WrongMana)
        } else {
            None
        }
    }
}

/// Whether `after` is `before` with a payment of `mana_id` made for
/// `spell` by `player`: where nothing stands against it, the unit is
/// recorded as the payment of the first item that had none; where
/// something does, nothing differs.
pub open spec fn mana_paid(before: &Game, after: &Game, player: PlayerId, spell: EntityId, mana_id: ManaId) -> bool {
    if pay_fault(before, player, spell, mana_id).is_none() {
        let earlier = before.view()[spell].incomplete.unwrap();
        &&& after.view().dom() == before.view().dom()
        &&& after.view().remove(spell) == before.view().remove(spell)
        &&& (Facets { incomplete: None, ..after.view()[spell] }) == (Facets {
            incomplete: None,
            ..before.view()[spell]
        })
        &&& after.view()[spell].incomplete matches Some(incomplete)
        &&& incomplete.mana_paid@ == earlier.mana_paid@.push(mana_id)
        &&& incomplete.previous_zone == earlier.previous_zone
        &&& incomplete.total_cost == earlier.total_cost
        &&& incomplete.targets == earlier.targets
        &&& after.zones == before.zones
        &&& after.same_course(before)
    } else {
        *after == *before
    }
}

/// Pays the next item of the cost of `spell` with the unit `mana_id` of
/// the pool of `player`, and says what stood against it if anything did.
pub fn try_pay_spell_mana(game: &mut Game, player: PlayerId, spell: EntityId, mana_id: ManaId) -> (paid: Result<(), CastError>)
    requires
        old(game).wf(),
    ensures
        final(game).wf(),
        mana_paid(old(game), final(game), player, spell, mana_id),
        paid == (match pay_fault(old(game), player, spell, mana_id) {
            Some(fault) => Err::<(), CastError>(fault),
            None => Ok::<(), CastError>(()),
        }),
{
    let mana = match game.players.get(player) {
        Some(player_data) => player_data.mana_pool.get(mana_id),
        None => {
            return Err(CastError::InvalidPlayer);
        },
    };
    let spell_object = match get_object(&game.world, spell) {
        Some(object) => object,
        None => {
            return Err(CastError::NotAnObject);
        },
    };
    let mut incomplete = match get_incomplete(&game.world, spell) {
        Some(incomplete) => incomplete,
        None => {
            return Err(CastError::NotIncomplete);
        },
    };
    if spell_object.controller != Some(player) {
        return Err(CastError::NotController);
    }
    let mana = match mana {
        Some(mana) => mana,
        None => {
            return Err(CastError::InvalidMana);
        },
    };
    if holds_mana_id(&incomplete.mana_paid, mana_id) {
        return Err(CastError::AlreadySpent);
    }
    let amount_paid_so_far: usize = incomplete.mana_paid.len();
    if amount_paid_so_far >= incomplete.total_cost.items.len() {
        return Err(CastError::NothingToPay);
    }
    if !incomplete.total_cost.items[amount_paid_so_far].can_be_paid_with(&mana) {
        return Err(CastError::WrongMana);
    }
    incomplete.mana_paid.push(mana_id);
    insert_incomplete(&mut game.world, spell, incomplete);
    proof {
        let before = old(game).view();
        let after = game.view();
        assert(after.remove(spell) =~= before.remove(spell));
        assert(after.dom() =~= before.dom());
        assert(crate::game::zones_index(game.zones, after)) by {
            assert forall|zone: ZoneId, id: EntityId| game.zones.has(zone) implies (
            #[trigger] game.zones.members(zone).contains(id) <==> crate::game::in_zone(after, id, zone)) by {
                assert(old(game).zones.members(zone).contains(id) <==> crate::game::in_zone(before, id, zone));
            }
        }
    }
    Ok(())
}

/// Pays the next item of the cost of `spell` with the unit `mana_id` of
/// the pool of `player`. A payment that is refused changes nothing.
pub fn pay_spell_mana(game: &mut Game, player: PlayerId, spell: EntityId, mana_id: ManaId)
    requires
        old(game).wf(),
    ensures
        final(game).wf(),
        mana_paid(old(game), final(game), player, spell, mana_id),
{
    let _ = try_pay_spell_mana(game, player, spell, mana_id);
}

/// What stands against the payment of the cost item at place `at`, if
/// anything: it has no payment; its unit pays for an earlier item too; its
/// unit is not in the pool, or is spent; or its unit does not pay it.
pub open spec fn item_fault(cost: Seq<CostItem>, paid: Seq<ManaId>, pool: Seq<Option<Mana>>, at: int) -> Option<CastError> {
    if at >= paid.len() {
        Some(CastError::Unpaid)
    } else if paid.subrange(0, at).contains(paid[at]) {
        Some(CastError::AlreadySpent)
    } else if unit_at(pool, paid[at]).is_none() {
        Some(CastError::InvalidMana)
    } else if !cost[at].accepts(unit_at(pool, paid[at]).unwrap()) {
        Some(CastError::WrongMana)
    } else {
        None
    }
}

/// The fault of the first cost item from place `from` on that has one.
pub open spec fn payment_fault(cost: Seq<CostItem>, paid: Seq<ManaId>, pool: Seq<Option<Mana>>, from: int) -> Option<CastError>
    decreases cost.len() - from,
{
    if from < 0 || from >= cost.len() {
        None
    } else if item_fault(cost, paid, pool, from).is_some() {
        item_fault(cost, paid, pool, from)
    } else {
        payment_fault(cost, paid, pool, from + 1)
    }
}

/// Why `player` may not finish the cast of `spell`, if anything stands
/// against it.
pub open spec fn finish_fault(game: &Game, player: PlayerId, spell: EntityId) -> Option<CastError> {
    let facets = facets_at(game.view(), spell);
    if (player.0 as int) >= game.players.inner@.len() {
        Some(CastError::InvalidPlayer)
    } else if facets.object.is_none() {
        Some(CastError::NotAnObject)
    } else if facets.incomplete.is_none() {
        Some(CastError::NotIncomplete)
    } else if facets.object.unwrap().controller != Some(player) {
        Some(CastError::NotController)
    } else {
        payment_fault(
            facets.incomplete.unwrap().total_cost.items@,
            facets.incomplete.unwrap().mana_paid@,
            game.players.inner@[player.0 as int].mana_pool@,
            0,
        )
    }
}

/// Whether `wanted` is among the first `upto` of `ids`.
fn paid_before(ids: &Vec<ManaId>, upto: usize, wanted: ManaId) -> (found: bool)
    requires
        upto <= ids@.len(),
    ensures
        found == ids@.subrange(0, upto as int).contains(wanted),
{
    let mut i: usize = 0;
    while i < upto
        invariant
            i <= upto <= ids@.len(),
            forall|j: int| 0 <= j < i ==> ids@[j] != wanted,
        decreases upto - i,
    {
        if ids[i] == wanted {
            assert(ids@.subrange(0, upto as int)[i as int] == wanted);
            return true;
        }
        i += 1;
    }
    false
}

/// Checks that every item of `cost` has its payment in `paid`, from the
/// pool `pool`.
pub fn check_payment(cost: &Vec<CostItem>, paid: &Vec<ManaId>, pool: &crate::mana_pool::ManaPool) -> (checked: Result<(), CastError>)
    ensures
        checked == (match payment_fault(cost@, paid@, pool@, 0) {
            Some(fault) => Err::<(), CastError>(fault),
            None => Ok::<(), CastError>(()),
        }),
{
    let mut i: usize = 0;
    while i < cost.len()
        invariant
            i <= cost.len(),
            payment_fault(cost@, paid@, pool@, 0) == payment_fault(cost@, paid@, pool@, i as int),
        decreases cost.len() - i,
    {
        if i >= paid.len() {
            return Err(CastError::Unpaid);
        }
        let mana_id = paid[i];
        if paid_before(paid, i, mana_id) {
            return Err(CastError::AlreadySpent);
        }
        let mana = match pool.get(mana_id) {
            Some(mana) => mana,
            None => {
                return Err(CastError::InvalidMana);
            },
        };
        if !cost[i].can_be_paid_with(&mana) {
            return Err(CastError::WrongMana);
        }
        i += 1;
    }
    Ok(())
}

/// Whether `after` is `before` with the cast of `spell` by `player`
/// finished: where nothing stands against it, the units that paid are out
/// of the player's pool, the spell is being cast no longer, and a round of
/// priority has begun with `player`; where something does, nothing
/// differs.
pub open spec fn cast_finished(before: &Game, after: &Game, player: PlayerId, spell: EntityId) -> bool {
    if finish_fault(before, player, spell).is_none() {
        let facets = before.view()[spell];
        let plain = before.view().insert(spell, (Facets { incomplete: None, ..facets }));
        let place = player.0 as int;
        &&& settled_view(plain, after.view())
        &&& after.players.inner@.len() == before.players.inner@.len()
        &&& forall|i: int|
            0 <= i < before.players.inner@.len() && i != place ==> #[trigger] after.players.inner@[i]
                == crate::game::state_based_actions::checked(before.players.inner@[i])
        &&& after.players.inner@[place].mana_pool@ == unspent(
            before.players.inner@[place].mana_pool@,
            facets.incomplete.unwrap().mana_paid@,
        )
        &&& (Player { mana_pool: before.players.inner@[place].mana_pool, ..after.players.inner@[place] })
            == crate::game::state_based_actions::checked(before.players.inner@[place])
        &&& after.state == granted(before.state, after.players.inner@, player)
        &&& after.players_that_have_passed@ == Seq::<PlayerId>::empty()
        &&& crate::zone::zones_pruned(before.zones, after.zones, after.view().dom())
        &&& after.object_db == before.object_db
        &&& after.next_timestamp == before.next_timestamp
        &&& after.turn_number == before.turn_number
        &&& after.active_player == before.active_player
        &&& after.step == before.step
    } else {
        *after == *before
    }
}

/// Finishes the cast of `spell` by `player`, and says what stood against
/// it if anything did.
pub fn try_finish_casting_spell(game: &mut Game, player: PlayerId, spell: EntityId) -> (finished: Result<(), CastError>)
    requires
        old(game).wf(),
    ensures
        final(game).wf(),
        cast_finished(old(game), final(game), player, spell),
        finished == (match finish_fault(old(game), player, spell) {
            Some(fault) => Err::<(), CastError>(fault),
            None => Ok::<(), CastError>(()),
        }),
{
    if (player.0 as usize) >= game.players.inner.len() {
        return Err(CastError::InvalidPlayer);
    }
    let place: usize = player.0 as usize;
    let spell_object = match get_object(&game.world, spell) {
        Some(object) => object,
        None => {
            return Err(CastError::NotAnObject);
        },
    };
    let spell_incomplete = match get_incomplete(&game.world, spell) {
        Some(incomplete) => incomplete,
        None => {
            return Err(CastError::NotIncomplete);
        },
    };
    if spell_object.controller != Some(player) {
        return Err(CastError::NotController);
    }
    match check_payment(
        &spell_incomplete.total_cost.items,
        &spell_incomplete.mana_paid,
        &game.players.inner[place].mana_pool,
    ) {
        Err(fault) => {
            return Err(fault);
        },
        Ok(_) => {},
    }
    game.players.inner[place].mana_pool.spend(&spell_incomplete.mana_paid);
    remove_incomplete(&mut game.world, spell);
    proof {
        let before = old(game).view();
        let after = game.view();
        assert(crate::game::zones_index(game.zones, after)) by {
            assert forall|zone: ZoneId, id: EntityId| game.zones.has(zone) implies (
            #[trigger] game.zones.members(zone).contains(id) <==> crate::game::in_zone(after, id, zone)) by {
                assert(old(game).zones.members(zone).contains(id) <==> crate::game::in_zone(before, id, zone));
            }
        }
        assert(game.players.wf());
    }
    let ghost paid_up = *game;
    game.start_priority_round(player);
    proof {
        assert forall|i: int| 0 <= i < old(game).players.inner@.len() && i != place implies #[trigger] game.players.inner@[i]
            == crate::game::state_based_actions::checked(old(game).players.inner@[i]) by {
            assert(paid_up.players.inner@[i] == old(game).players.inner@[i]);
        }
    }
    Ok(())
}

/// Finishes the cast of `spell` by `player`. A cast that cannot be
/// finished stays as it is.
pub fn finish_casting_spell(game: &mut Game, player: PlayerId, spell: EntityId)
    requires
        old(game).wf(),
    ensures
        final(game).wf(),
        cast_finished(old(game), final(game), player, spell),
{
    let _ = try_finish_casting_spell(game, player, spell);
}

} // verus!
