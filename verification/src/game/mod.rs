//! The game: its state, and the turn and priority structure that drives it.

pub mod casting;
pub mod combat;
pub mod effects;
pub mod state_based_actions;
pub mod turn;
pub mod util;

use vstd::prelude::*;
use crate::action::{PlayerAction, PlayerActionCategory};
use crate::components::{Card, Object, Permanent};
use crate::entity::EntityId;
use crate::object_db::{CardId, ObjectDb};
use crate::player::{PlayerId, Players};
use crate::store::{
    facet_of, get_object, insert_card, insert_object, insert_permanent, list_object,
    remove_permanent, world_contains, world_despawn, world_new, world_spawn, world_view, Facets,
};
use crate::types::copy_vec;
use crate::zone::{
    lemma_kept_all, lemma_kept_holds, lemma_without, lemma_without_is_kept, zones_pruned, ZoneId, Zones,
};

verus! {

/// The steps of a turn.
#[derive(Clone, Copy, Debug, PartialEq, Eq, Structural)]
pub enum Step {
    Untap,
    Upkeep,
    Draw,
    Main1,
    Main2,
    BeginCombat,
    DeclareAttackers,
    DeclareBlockers,
    CombatDamage,
    EndCombat,
    End,
    Cleanup,
}

/// How a game ended.
#[derive(Clone, Copy, Debug, PartialEq, Eq, Structural)]
pub enum GameOutcome {
    /// One player is left who has not lost.
    Win { winner: PlayerId },
    /// Every player has lost.
    Draw,
}

/// What has to happen next for the game to go on.
#[derive(Clone, Copy, Debug, PartialEq, Eq, Structural)]
pub enum GameState {
    /// The game waits for `player` to act, in the way `action` names.
    Player { player: PlayerId, action: PlayerActionCategory },
    /// The game is over.
    Complete(GameOutcome),
}

/// A game in progress.
pub struct Game {
    /// The catalog that cards are made from.
    pub object_db: ObjectDb,
    /// Every object and effect of the game.
    pub world: hecs::World,
    /// The timestamp that will be handed out next.
    pub next_timestamp: u64,
    pub players: Players,
    /// The turn cycle that is being played, counted from one.
    pub turn_number: u64,
    /// The players who have passed priority since anything last happened.
    pub players_that_have_passed: Vec<PlayerId>,
    /// The player whose turn it is.
    pub active_player: PlayerId,
    pub step: Step,
    pub state: GameState,
    /// For each zone its members: an index over the zone that each object
    /// of `world` records for itself.
    pub zones: Zones,
}

/// Whether `zones` lists, zone by zone, exactly the objects of `view` that
/// say they are in that zone, each once, and every object names a zone that
/// exists.
pub open spec fn zones_index(zones: Zones, view: Map<EntityId, Facets>) -> bool {
    &&& forall|zone: ZoneId| zones.has(zone) ==> (#[trigger] zones.members(zone)).no_duplicates()
    &&& forall|zone: ZoneId, id: EntityId|
        zones.has(zone) ==> (#[trigger] zones.members(zone).contains(id) <==> in_zone(view, id, zone))
    &&& forall|id: EntityId| #[trigger]
        view.dom().contains(id) && view[id].object.is_some() ==> zones.has(view[id].object.unwrap().zone)
}

/// Whether `id` is a live object of `view` whose own record says `zone`.
pub open spec fn in_zone(view: Map<EntityId, Facets>, id: EntityId, zone: ZoneId) -> bool {
    view.dom().contains(id) && view[id].object.is_some() && view[id].object.unwrap().zone == zone
}

/// Whether an object in `zone` has a controller: only on the stack and on
/// the battlefield.
pub open spec fn controlled_in(zone: ZoneId) -> bool {
    zone == ZoneId::Battlefield || zone == ZoneId::Stack
}

/// What holds of every object of `view`: it is a permanent exactly while it
/// is on the battlefield, and its owner controls it while it is on the
/// stack or the battlefield and nobody does elsewhere.
pub open spec fn objects_sound(view: Map<EntityId, Facets>) -> bool {
    forall|id: EntityId| #[trigger]
        view.dom().contains(id) && view[id].object.is_some() ==> {
            &&& view[id].permanent.is_some() == (view[id].object.unwrap().zone == ZoneId::Battlefield)
            &&& view[id].object.unwrap().controller == (if controlled_in(view[id].object.unwrap().zone) {
                Some(view[id].object.unwrap().owner)
            } else {
                None
            })
        }
}

/// What holds of every spell of `view` that is being cast: no more is paid
/// than the cost has items, and no unit of mana pays twice.
pub open spec fn casts_sound(view: Map<EntityId, Facets>) -> bool {
    forall|id: EntityId| #[trigger]
        view.dom().contains(id) && view[id].incomplete.is_some() ==> {
            &&& view[id].incomplete.unwrap().mana_paid@.len() <= view[id].incomplete.unwrap().total_cost.items@.len()
            &&& view[id].incomplete.unwrap().mana_paid@.no_duplicates()
        }
}

impl Game {
    /// What the store holds.
    pub open spec fn view(&self) -> Map<EntityId, Facets> {
        world_view(self.world)
    }

    /// The object behind `id`, if `id` is a live object.
    pub open spec fn object(&self, id: EntityId) -> Option<Object> {
        facet_of(self.view(), id, |f: Facets| f.object)
    }

    /// The invariant of a game: the players stand in turn order and there
    /// are at least two; every player has zones; the player to act and the
    /// active player are players; nobody is recorded twice as having
    /// passed; the zone index agrees with the objects; objects and casts
    /// are sound.
    pub open spec fn wf(&self) -> bool {
        &&& self.players.wf()
        &&& self.players.inner@.len() >= 2
        &&& self.zones.wf()
        &&& self.zones.num_players() == self.players.inner@.len()
        &&& (self.active_player.0 as int) < self.players.inner@.len()
        &&& (self.state matches GameState::Player { player, .. } ==> (player.0 as int)
            < self.players.inner@.len())
        &&& self.players_that_have_passed@.no_duplicates()
        &&& zones_index(self.zones, self.view())
        &&& objects_sound(self.view())
        &&& casts_sound(self.view())
    }

    /// Whether the catalog, the clock, the turn, the step, the passes and
    /// what the game waits for are as in `other`.
    pub open spec fn same_turn(&self, other: &Game) -> bool {
        &&& self.object_db == other.object_db
        &&& self.next_timestamp == other.next_timestamp
        &&& self.turn_number == other.turn_number
        &&& self.players_that_have_passed == other.players_that_have_passed
        &&& self.active_player == other.active_player
        &&& self.step == other.step
        &&& self.state == other.state
    }

    /// Whether everything but the store and the zones is as in `other`.
    pub open spec fn same_course(&self, other: &Game) -> bool {
        &&& self.same_turn(other)
        &&& self.players == other.players
    }

    /// A game between two fresh players over the catalog `object_db`: no
    /// objects, the first turn, the first player's upkeep, and the first
    /// player with priority.
    pub fn new(object_db: ObjectDb) -> (game: Self)
        ensures
            game.wf(),
            game.object_db == object_db,
            game.view().dom() == Set::<EntityId>::empty(),
            game.players.inner@.len() == 2,
            crate::player::fresh_player(game.players.inner@[0], 0),
            crate::player::fresh_player(game.players.inner@[1], 1),
            game.turn_number == 1,
            game.next_timestamp == 0,
            game.players_that_have_passed@ == Seq::<PlayerId>::empty(),
            game.active_player == PlayerId(0),
            game.step == Step::Upkeep,
            game.state == (GameState::Player {
                player: PlayerId(0),
                action: PlayerActionCategory::Priority,
            }),
            forall|zone: ZoneId| game.zones.has(zone) ==> #[trigger] game.zones.members(zone) == Seq::<EntityId>::empty(),
    {
        let world = world_new();
        let players = Players::new(2);
        let zones = Zones::new(players.len());
        let player1_id = players.inner[0].id;
        Game {
            object_db,
            world,
            next_timestamp: 0,
            players,
            turn_number: 1,
            players_that_have_passed: Vec::new(),
            active_player: player1_id,
            step: Step::Upkeep,
            state: GameState::Player { player: player1_id, action: PlayerActionCategory::Priority },
            zones,
        }
    }

    /// The catalog.
    pub fn object_db(&self) -> (db: &ObjectDb)
        ensures
            *db == self.object_db,
    {
        &self.object_db
    }

    /// The store, to read. A caller who borrows a component from it for
    /// change, as `hecs` lets a holder of a shared world do, must give the
    /// borrow back before the next call into the game: the store panics
    /// where a component is read while it is borrowed for change.
    pub fn world(&self) -> (world: &hecs::World)
        ensures
            *world == self.world,
    {
        &self.world
    }

    /// Whether the entity behind `id` is alive.
    pub fn contains(&self, id: EntityId) -> (alive: bool)
        ensures
            alive == self.view().dom().contains(id),
    {
        world_contains(&self.world, id)
    }

    /// The player whose turn it is.
    pub fn active_player(&self) -> (player: PlayerId)
        ensures
            player == self.active_player,
    {
        self.active_player
    }

    /// The turn cycle that is being played.
    pub fn turn_number(&self) -> (turn: u64)
        ensures
            turn == self.turn_number,
    {
        self.turn_number
    }

    /// The zone named `id`, if it exists.
    pub fn zone(&self, id: ZoneId) -> (zone: Option<&crate::zone::Zone>)
        ensures
            zone.is_some() == self.zones.has(id),
            self.zones.has(id) ==> zone.unwrap()@ == self.zones.members(id),
    {
        self.zones.get(id)
    }

    /// The players, in turn order.
    pub fn players(&self) -> (players: &Players)
        ensures
            *players == self.players,
    {
        &self.players
    }

    /// The current step.
    pub fn step(&self) -> (step: Step)
        ensures
            step == self.step,
    {
        self.step
    }

    /// What the game is waiting for.
    pub fn state(&self) -> (state: &GameState)
        ensures
            *state == self.state,
    {
        &self.state
    }

    /// The player who has priority, if one has.
    pub open spec fn priority_holder(&self) -> Option<PlayerId> {
        match self.state {
            GameState::Player { player, action: PlayerActionCategory::Priority } => Some(player),
            _ => None,
        }
    }

    /// The player who has priority, if one has.
    pub fn priority_player(&self) -> (player: Option<PlayerId>)
        ensures
            player == self.priority_holder(),
    {
        match self.state {
            GameState::Player { player, action: PlayerActionCategory::Priority } => Some(player),
            _ => None,
        }
    }

    /// Hands out the next timestamp.
    pub fn timestamp(&mut self) -> (stamp: u64)
        requires
            old(self).next_timestamp < u64::MAX,
        ensures
            stamp == old(self).next_timestamp,
            *final(self) == (Game { next_timestamp: (stamp + 1) as u64, ..*old(self) }),
    {
        let timestamp: u64 = self.next_timestamp;
        self.next_timestamp += 1;
        timestamp
    }
}

/// A copy of `subtypes`, name for name.
fn copy_subtypes(subtypes: &Vec<crate::types::CardSubtype>) -> (out: Vec<crate::types::CardSubtype>)
    ensures
        same_subtypes(out@, subtypes@),
{
    let mut out: Vec<crate::types::CardSubtype> = Vec::new();
    let mut i: usize = 0;
    while i < subtypes.len()
        invariant
            i <= subtypes.len(),
            out@.len() == i,
            forall|j: int| 0 <= j < i ==> (#[trigger] out@[j]).name@ == subtypes@[j].name@,
        decreases subtypes.len() - i,
    {
        out.push(crate::types::CardSubtype { name: subtypes[i].name.clone() });
        i += 1;
    }
    out
}

/// Whether two lists of subtypes name the same subtypes in the same order.
pub open spec fn same_subtypes(a: Seq<crate::types::CardSubtype>, b: Seq<crate::types::CardSubtype>) -> bool {
    &&& a.len() == b.len()
    &&& forall|j: int| 0 <= j < a.len() ==> (#[trigger] a[j]).name@ == b[j].name@
}

/// Whether `facets` are those of a card just made from `descriptor`, the
/// card `id` of the catalog, in `zone` for `owner`: an object with the
/// card's characteristics, controlled by its owner where the zone is the
/// stack or the battlefield and by nobody elsewhere; the mark of the card;
/// an untapped permanent on the battlefield; and nothing else.
pub open spec fn fresh_card(
    facets: Facets,
    descriptor: crate::card::CardDescriptor,
    id: CardId,
    zone: ZoneId,
    owner: PlayerId,
) -> bool {
    &&& facets.object matches Some(object)
    &&& object.name@ == descriptor.name@
    &&& object.types@ == descriptor.types@
    &&& object.supertypes@ == descriptor.supertypes@
    &&& same_subtypes(object.subtypes@, descriptor.subtypes@)
    &&& object.pt == descriptor.pt
    &&& object.mana_cost.is_some() == descriptor.mana_cost.is_some()
    &&& (object.mana_cost.is_some() ==> object.mana_cost.unwrap().items@
        == descriptor.mana_cost.unwrap().items@)
    &&& object.zone == zone
    &&& object.owner == owner
    &&& object.controller == (if controlled_in(zone) {
        Some(owner)
    } else {
        None
    })
    &&& facets == (Facets {
        object: Some(object),
        card: Some(Card { id }),
        permanent: if zone == ZoneId::Battlefield {
            Some(Permanent { tapped: false })
        } else {
            None
        },
        ..Facets::bare()
    })
}

/// `view` with the object `id` moved to `zone`: the object records the new
/// zone; its owner controls it if the new zone is the stack or the
/// battlefield, and nobody otherwise; it is an untapped permanent if the
/// new zone is the battlefield and no permanent otherwise; nothing else
/// differs.
pub open spec fn moved_view(view: Map<EntityId, Facets>, id: EntityId, zone: ZoneId) -> Map<EntityId, Facets> {
    let object = view[id].object.unwrap();
    view.insert(
        id,
        (Facets {
            object: Some(
                (Object {
                    zone: zone,
                    controller: if controlled_in(zone) {
                        Some(object.owner)
                    } else {
                        None
                    },
                    ..object
                }),
            ),
            permanent: if zone == ZoneId::Battlefield {
                Some(Permanent { tapped: false })
            } else {
                None
            },
            ..view[id]
        }),
    )
}

/// Whether `after` is `before` with `id` taken out of the list of `from`
/// and put last in the list of `to`, the other lists unchanged.
pub open spec fn zones_moved(before: Zones, after: Zones, id: EntityId, from: ZoneId, to: ZoneId) -> bool {
    &&& after.wf()
    &&& after.num_players() == before.num_players()
    &&& after.members(to) == before.members(to).push(id)
    &&& after.members(from) == crate::zone::without(before.members(from), id, before.members(from).len() as int)
    &&& forall|other: ZoneId|
        before.has(other) && other != to && other != from ==> #[trigger] after.members(other)
            == before.members(other)
}

/// An object of a sound game stands in the list of exactly one zone, the
/// zone that the object records as its own, and stands there once.
pub proof fn lemma_object_in_one_zone(game: &Game, id: EntityId)
    requires
        game.wf(),
        game.object(id).is_some(),
    ensures
        game.zones.has(game.object(id).unwrap().zone),
        forall|zone: ZoneId|
            game.zones.has(zone) ==> (#[trigger] game.zones.members(zone).contains(id) <==> zone
                == game.object(id).unwrap().zone),
        game.zones.members(game.object(id).unwrap().zone).no_duplicates(),
{
    assert(game.view().dom().contains(id) && game.view()[id].object.is_some());
    assert forall|zone: ZoneId| game.zones.has(zone) implies (#[trigger] game.zones.members(zone).contains(id) <==> zone
        == game.object(id).unwrap().zone) by {
        assert(game.zones.members(zone).contains(id) <==> in_zone(game.view(), id, zone));
    }
}

impl Game {
    /// Whether moving `id` to `zone` changes anything: the zone exists and
    /// `id` is an object of another zone.
    pub open spec fn moves(&self, id: EntityId, zone: ZoneId) -> bool {
        &&& self.zones.has(zone)
        &&& self.object(id) matches Some(object)
        &&& object.zone != zone
    }

    /// Whether `self` is `before` with the object `id` moved to `zone`: the
    /// store is `moved_view` of the old one, the zones are `zones_moved`
    /// from the old ones.
    pub open spec fn moved_from(&self, before: &Game, id: EntityId, zone: ZoneId) -> bool {
        &&& self.view() == moved_view(before.view(), id, zone)
        &&& zones_moved(before.zones, self.zones, id, before.object(id).unwrap().zone, zone)
    }

    /// Makes the card `id` of the catalog into an object in `zone_id`, owned
    /// by `owner`, as the last member of that zone. Nothing is made where
    /// the zone or the card does not exist.
    pub fn create_card(&mut self, id: CardId, zone_id: ZoneId, owner: PlayerId) -> (made: Option<EntityId>)
        requires
            old(self).wf(),
        ensures
            final(self).wf(),
            final(self).same_course(old(self)),
            made.is_some() == (old(self).zones.has(zone_id) && (id.0 as int)
                < old(self).object_db.cards@.len()),
            made.is_none() ==> final(self).view() == old(self).view() && final(self).zones == old(self).zones,
            made matches Some(entity) ==> {
                &&& !old(self).view().dom().contains(entity)
                &&& final(self).view().dom() == old(self).view().dom().insert(entity)
                &&& final(self).view().remove(entity) == old(self).view()
                &&& fresh_card(
                    final(self).view()[entity],
                    old(self).object_db.cards@[id.0 as int],
                    id,
                    zone_id,
                    owner,
                )
                &&& final(self).zones.members(zone_id) == old(self).zones.members(zone_id).push(entity)
                &&& forall|other: ZoneId|
                    old(self).zones.has(other) && other != zone_id ==> #[trigger] final(self).zones.members(other) == old(self).zones.members(other)
            },
    {
        if !self.zones.contains_zone(zone_id) {
            return None;
        }
        let descriptor = match self.object_db.card(id) {
            Some(descriptor) => descriptor,
            None => {
                return None;
            },
        };
        let controller = if zone_id == ZoneId::Battlefield || zone_id == ZoneId::Stack {
            Some(owner)
        } else {
            None
        };
        let mana_cost = match &descriptor.mana_cost {
            Some(cost) => Some(cost.clone()),
            None => None,
        };
        let object = Object {
            name: descriptor.name.clone(),
            types: copy_vec(&descriptor.types),
            supertypes: copy_vec(&descriptor.supertypes),
            subtypes: copy_subtypes(&descriptor.subtypes),
            pt: descriptor.pt,
            mana_cost,
            zone: zone_id,
            owner,
            controller,
        };
        let entity = world_spawn(&mut self.world);
        insert_object(&mut self.world, entity, object);
        insert_card(&mut self.world, entity, Card { id });
        if zone_id == ZoneId::Battlefield {
            insert_permanent(&mut self.world, entity, Permanent { tapped: false });
        }
        match self.zones.get_mut(zone_id) {
            Some(zone) => {
                zone.add(entity);
            },
            None => {},
        }
        proof {
            let before = old(self).view();
            let after = self.view();
            assert(after.remove(entity) =~= before);
            assert(after.dom() =~= before.dom().insert(entity));
            assert(!old(self).zones.members(zone_id).contains(entity)) by {
                assert(!in_zone(before, entity, zone_id));
            }
            assert forall|zone: ZoneId, other: EntityId| self.zones.has(zone) implies (
            #[trigger] self.zones.members(zone).contains(other) <==> in_zone(after, other, zone)) by {
                assert(old(self).zones.members(zone).contains(other) <==> in_zone(before, other, zone));
                if zone == zone_id {
                    let list = old(self).zones.members(zone);
                    crate::zone::lemma_pushed(list, entity, other);
                }
            }
            assert forall|zone: ZoneId| self.zones.has(zone) implies (#[trigger] self.zones.members(zone)).no_duplicates() by {
                assert(old(self).zones.members(zone).no_duplicates());
            }
        }
        Some(entity)
    }

    /// Moves the object `object_id` to the zone `zone_id`. Nothing happens
    /// where the zone does not exist, `object_id` is no object, or the
    /// object is in that zone already; the answer is `None` in the first
    /// two cases.
    pub fn move_object_to_zone(&mut self, object_id: EntityId, zone_id: ZoneId) -> (moved: Option<()>)
        requires
            old(self).wf(),
        ensures
            final(self).wf(),
            final(self).same_course(old(self)),
            moved.is_some() == (old(self).zones.has(zone_id) && old(self).object(object_id).is_some()),
            !old(self).moves(object_id, zone_id) ==> final(self).view() == old(self).view() && final(self).zones == old(self).zones,
            old(self).moves(object_id, zone_id) ==> final(self).moved_from(old(self), object_id, zone_id),
            moved.is_some() ==> forall|zone: ZoneId|
                final(self).zones.has(zone) ==> (#[trigger] final(self).zones.members(zone).contains(
                    object_id,
                ) <==> zone == zone_id),
            moved.is_some() ==> final(self).object(object_id).unwrap().zone == zone_id,
    {
        if !self.zones.contains_zone(zone_id) {
            return None;
        }
        let mut object = match get_object(&self.world, object_id) {
            Some(object) => object,
            None => {
                return None;
            },
        };
        let old_zone_id = object.zone;
        if zone_id == old_zone_id {
            proof {
                assert(in_zone(self.view(), object_id, zone_id));
            }
            return Some(());
        }
        assert(self.zones.has(old_zone_id));
        match self.zones.get_mut(old_zone_id) {
            Some(zone) => {
                zone.remove(object_id);
            },
            None => {
                return None;
            },
        }
        match self.zones.get_mut(zone_id) {
            Some(zone) => {
                zone.add(object_id);
            },
            None => {},
        }
        object.zone = zone_id;
        object.controller = if zone_id == ZoneId::Battlefield || zone_id == ZoneId::Stack {
            Some(object.owner)
        } else {
            None
        };
        insert_object(&mut self.world, object_id, object);
        if zone_id == ZoneId::Battlefield {
            insert_permanent(&mut self.world, object_id, Permanent { tapped: false });
        } else if old_zone_id == ZoneId::Battlefield {
            remove_permanent(&mut self.world, object_id);
        }
        proof {
            let before = old(self).view();
            let after = self.view();
            let from = old(self).zones.members(old_zone_id);
            let to = old(self).zones.members(zone_id);
            lemma_without(from, object_id, from.len() as int);
            assert(from.subrange(0, from.len() as int) == from);
            assert(in_zone(before, object_id, old_zone_id));
            assert(!in_zone(before, object_id, zone_id));
            assert(!to.contains(object_id));
            assert forall|other: EntityId| to.push(object_id).contains(other) <==> (to.contains(other) || other == object_id) by {
                crate::zone::lemma_pushed(to, object_id, other);
            }
            assert(after =~= before.insert(
                object_id,
                (Facets {
                    object: Some(object),
                    permanent: if zone_id == ZoneId::Battlefield {
                        Some(Permanent { tapped: false })
                    } else {
                        None
                    },
                    ..before[object_id]
                }),
            ));
            assert forall|zone: ZoneId, other: EntityId| self.zones.has(zone) implies (
            #[trigger] self.zones.members(zone).contains(other) <==> in_zone(after, other, zone)) by {
                assert(old(self).zones.members(zone).contains(other) <==> in_zone(before, other, zone));
            }
            assert forall|zone: ZoneId| self.zones.has(zone) implies (#[trigger] self.zones.members(zone)).no_duplicates() by {
                assert(old(self).zones.members(zone).no_duplicates());
            }
        }
        Some(())
    }
}

/// The player who wins where `player` concedes: the first in turn order
/// who is not `player`.
pub open spec fn opponent_of(player: PlayerId) -> PlayerId {
    if player.0 == 0 {
        PlayerId(1)
    } else {
        PlayerId(0)
    }
}

/// Why a player may not play a land.
#[derive(Clone, Copy, Debug, PartialEq, Eq, Structural)]
pub enum LandError {
    /// It is not the player's turn.
    NotTheirTurn,
    /// It is not a main phase.
    NotMainPhase,
    /// The player does not have priority.
    NoPriority,
    /// The stack is not empty.
    StackNotEmpty,
    /// The player has played a land this turn.
    AlreadyPlayed,
}

impl Game {
    /// Marks `player` as the loser: the game is over and the opponent has
    /// won.
    pub fn player_loses(&mut self, player: PlayerId)
        requires
            old(self).wf(),
        ensures
            *final(self) == (Game {
                state: GameState::Complete(GameOutcome::Win { winner: opponent_of(player) }),
                ..*old(self)
            }),
    {
        let mut i: usize = 0;
        while i < self.players.inner.len()
            invariant
                *self == *old(self),
                self.wf(),
                i <= self.players.inner@.len(),
                forall|j: int| 0 <= j < i ==> self.players.inner@[j].id == player,
            decreases self.players.inner@.len() - i,
        {
            if self.players.inner[i].id != player {
                assert(i <= 1) by {
                    if i > 1 {
                        assert(self.players.inner@[0].id == player);
                        assert(self.players.inner@[1].id == player);
                    }
                }
                assert(i == 0 <==> player.0 != 0) by {
                    if i == 1 {
                        assert(self.players.inner@[0].id == player);
                    }
                }
                self.state = GameState::Complete(GameOutcome::Win { winner: self.players.inner[i].id });
                return ;
            }
            i += 1;
        }
        proof {
            assert(self.players.inner@[0].id == player);
            assert(self.players.inner@[1].id == player);
        }
    }

    /// Why `player` may not play a land, if anything stands against it.
    pub open spec fn land_fault(&self, player: PlayerId) -> Option<LandError> {
        if self.active_player != player {
            Some(LandError::NotTheirTurn)
        } else if self.step != Step::Main1 && self.step != Step::Main2 {
            Some(LandError::NotMainPhase)
        } else if self.priority_holder() != Some(player) {
            Some(LandError::NoPriority)
        } else if !self.stack_empty() {
            Some(LandError::StackNotEmpty)
        } else if self.players.inner@[player.0 as int].lands_played_this_turn > 0 {
            Some(LandError::AlreadyPlayed)
        } else {
            None
        }
    }

    /// Whether `self` is `before` with `land` played by `player`: where
    /// nothing stands against it, the player has played one land this turn
    /// and `land` has moved to the battlefield as `move_object_to_zone`
    /// moves it; where something does, nothing differs.
    pub open spec fn land_played(&self, before: &Game, player: PlayerId, land: EntityId) -> bool {
        if before.land_fault(player).is_none() {
            let place = player.0 as int;
            &&& self.players.inner@ == before.players.inner@.update(
                place,
                (crate::player::Player { lands_played_this_turn: 1, ..before.players.inner@[place] }),
            )
            &&& self.same_turn(before)
            &&& if before.moves(land, ZoneId::Battlefield) {
                self.moved_from(before, land, ZoneId::Battlefield)
            } else {
                self.view() == before.view() && self.zones == before.zones
            }
        } else {
            *self == *before
        }
    }

    /// Plays `land` for `player`, and says what stood against it if
    /// anything did.
    pub fn try_play_land(&mut self, player: PlayerId, land: EntityId) -> (played: Result<(), LandError>)
        requires
            old(self).wf(),
        ensures
            final(self).wf(),
            final(self).land_played(old(self), player, land),
            played == (match old(self).land_fault(player) {
                Some(fault) => Err::<(), LandError>(fault),
                None => Ok::<(), LandError>(()),
            }),
    {
        if self.active_player != player {
            return Err(LandError::NotTheirTurn);
        }
        if self.step != Step::Main1 && self.step != Step::Main2 {
            return Err(LandError::NotMainPhase);
        }
        if self.priority_player() != Some(player) {
            return Err(LandError::NoPriority);
        }
        let stack_is_empty = match self.zones.get(ZoneId::Stack) {
            Some(stack) => stack.is_empty(),
            None => true,
        };
        if !stack_is_empty {
            return Err(LandError::StackNotEmpty);
        }
        let place: usize = player.0 as usize;
        if self.players.inner[place].lands_played_this_turn > 0 {
            return Err(LandError::AlreadyPlayed);
        }
        self.players.inner[place].lands_played_this_turn += 1;
        assert(self.players.wf());
        self.move_object_to_zone(land, ZoneId::Battlefield);
        Ok(())
    }

    /// Plays `land` for `player`. A play that is refused changes nothing.
    pub fn play_land(&mut self, player: PlayerId, land: EntityId)
        requires
            old(self).wf(),
        ensures
            final(self).wf(),
            final(self).land_played(old(self), player, land),
    {
        let _ = self.try_play_land(player, land);
    }

    /// Whether `self` is `before` with `action` taken by `player`.
    pub open spec fn acted(&self, before: &Game, player: PlayerId, action: PlayerAction) -> bool {
        match action {
            PlayerAction::Concede => *self == (Game {
                state: GameState::Complete(GameOutcome::Win { winner: opponent_of(player) }),
                ..*before
            }),
            PlayerAction::PassPriority => self.priority_passed(before, player),
            PlayerAction::ChooseAttackers { attackers } => combat::attackers_chosen(
                before,
                self,
                player,
                attackers@,
            ),
            PlayerAction::ChooseBlockers { blockers } => combat::blockers_chosen(before, self, player),
            PlayerAction::PlayLand { card } => self.land_played(before, player, card),
            PlayerAction::StartCastingSpell { spell } => casting::cast_started(before, self, player, spell),
            PlayerAction::FinishCastingSpell { spell } => casting::cast_finished(
                before,
                self,
                player,
                spell,
            ),
            PlayerAction::CancelCastingSpell { spell } => casting::cancelled(before, self, spell),
            PlayerAction::PayIncompleteSpellMana { spell, mana } => casting::mana_paid(
                before,
                self,
                player,
                spell,
                mana,
            ),
        }
    }

    /// Takes `action` for `player`. An action that the rules refuse changes
    /// nothing, but for a refused start of a cast, which cancels the cast.
    pub fn do_action(&mut self, player: PlayerId, action: PlayerAction)
        requires
            old(self).wf(),
            old(self).turn_number < u64::MAX,
        ensures
            final(self).wf(),
            final(self).acted(old(self), player, action),
    {
        match action {
            PlayerAction::Concede => self.player_loses(player),
            PlayerAction::PassPriority => self.pass_priority(player),
            PlayerAction::ChooseAttackers { attackers } => combat::choose_attackers(self, player, &attackers),
            PlayerAction::ChooseBlockers { blockers } => combat::choose_blockers(self, player, &blockers),
            PlayerAction::PlayLand { card } => self.play_land(player, card),
            PlayerAction::StartCastingSpell { spell } => casting::start_casting_spell(self, player, spell),
            PlayerAction::FinishCastingSpell { spell } => casting::finish_casting_spell(self, player, spell),
            PlayerAction::CancelCastingSpell { spell } => casting::cancel_casting_spell(self, player, spell),
            PlayerAction::PayIncompleteSpellMana { spell, mana } => casting::pay_spell_mana(
                self,
                player,
                spell,
                mana,
            ),
        }
    }
}

impl Game {
    /// Builds the zone index anew from what the objects record: afterwards
    /// every zone lists exactly the objects that say they are in it, each
    /// once. An object that names a zone that does not exist is in no list.
    pub fn rebuild_zone_index(&mut self)
        ensures
            final(self).zones.wf() == old(self).zones.wf(),
            final(self).zones.num_players() == old(self).zones.num_players(),
            forall|zone: ZoneId| final(self).zones.has(zone) == old(self).zones.has(zone),
            final(self).view() == old(self).view(),
            final(self).same_course(old(self)),
            forall|zone: ZoneId|
                final(self).zones.has(zone) ==> (#[trigger] final(self).zones.members(zone)).no_duplicates(),
            forall|zone: ZoneId, id: EntityId|
                final(self).zones.has(zone) ==> (#[trigger] final(self).zones.members(zone).contains(id)
                    <==> in_zone(final(self).view(), id, zone)),
    {
        self.zones.clear_all();
        let objects = list_object(&self.world);
        let ghost view = self.view();
        let mut i: usize = 0;
        while i < objects.len()
            invariant
                i <= objects.len(),
                crate::store::lists(objects@, view, |f: Facets| f.object),
                view == old(self).view(),
                self.view() == view,
                self.same_course(old(self)),
                self.zones.libraries@.len() == old(self).zones.libraries@.len(),
                self.zones.hands@.len() == old(self).zones.hands@.len(),
                self.zones.graveyards@.len() == old(self).zones.graveyards@.len(),
                forall|zone: ZoneId| self.zones.has(zone) ==> (#[trigger] self.zones.members(zone)).no_duplicates(),
                forall|zone: ZoneId, id: EntityId|
                    self.zones.has(zone) ==> (#[trigger] self.zones.members(zone).contains(id) <==> (in_zone(
                        view,
                        id,
                        zone,
                    ) && exists|j: int| 0 <= j < i && (#[trigger] objects@[j]).0 == id)),
            decreases objects.len() - i,
        {
            let entity = objects[i].0;
            let home = objects[i].1.zone;
            let ghost earlier = self.zones;
            match self.zones.get_mut(home) {
                Some(zone) => {
                    zone.add(entity);
                },
                None => {},
            }
            proof {
                assert(in_zone(view, objects@[i as int].0, home));
                assert forall|zone: ZoneId, id: EntityId| self.zones.has(zone) implies (
                #[trigger] self.zones.members(zone).contains(id) <==> (in_zone(view, id, zone) && exists|j: int|
                    0 <= j < i + 1 && (#[trigger] objects@[j]).0 == id)) by {
                    let list = earlier.members(zone);
                    assert(list.contains(id) <==> (in_zone(view, id, zone) && exists|j: int|
                        0 <= j < i && (#[trigger] objects@[j]).0 == id));
                    if zone == home {
                        crate::zone::lemma_pushed(list, entity, id);
                    }
                    if in_zone(view, id, zone) && exists|j: int| 0 <= j < i + 1 && (#[trigger] objects@[j]).0 == id {
                        let j = choose|j: int| 0 <= j < i + 1 && (#[trigger] objects@[j]).0 == id;
                        if j == i {
                            assert(id == entity);
                        }
                    }
                    if id == entity && zone == home {
                        assert(objects@[i as int].0 == id);
                    }
                }
                assert forall|zone: ZoneId| self.zones.has(zone) implies (#[trigger] self.zones.members(zone)).no_duplicates() by {
                    let list = earlier.members(zone);
                    assert(list.no_duplicates());
                    if zone == home {
                        if list.contains(entity) {
                            let j = choose|j: int| 0 <= j < i && (#[trigger] objects@[j]).0 == entity;
                            assert(objects@[j].0 != objects@[i as int].0);
                        }
                    }
                }
            }
            i += 1;
        }
        proof {
            assert forall|zone: ZoneId, id: EntityId| self.zones.has(zone) implies (
            #[trigger] self.zones.members(zone).contains(id) <==> in_zone(view, id, zone)) by {
                if in_zone(view, id, zone) {
                    assert(view.dom().contains(id));
                    let j = choose|j: int| 0 <= j < objects@.len() && (#[trigger] objects@[j]).0 == id;
                    assert(objects@[j].0 == id);
                }
            }
        }
    }
}

impl Game {
    /// The store, to change. What a caller does to it is the caller's to
    /// answer for: the game is sound afterwards only where the caller keeps
    /// it so.
    pub fn world_mut(&mut self) -> (world: &mut hecs::World)
        ensures
            *world == old(self).world,
            *final(self) == (Game { world: *final(world), ..*old(self) }),
    {
        &mut self.world
    }

    /// The zone named `id`, if it exists, to change. The lists of the other
    /// zones stay as they are. The game is sound afterwards only where the
    /// caller leaves in the list the members that it had, each once.
    pub fn zone_mut(&mut self, id: ZoneId) -> (zone: Option<&mut crate::zone::Zone>)
        ensures
            zone.is_some() == old(self).zones.has(id),
            !old(self).zones.has(id) ==> *final(self) == *old(self),
            old(self).zones.has(id) ==> {
                &&& zone.unwrap()@ == old(self).zones.members(id)
                &&& final(self).world == old(self).world
                &&& final(self).same_course(old(self))
                &&& final(self).zones.wf() == old(self).zones.wf()
                &&& final(self).zones.num_players() == old(self).zones.num_players()
                &&& forall|other: ZoneId| final(self).zones.has(other) == old(self).zones.has(other)
                &&& final(self).zones.members(id) == final(zone.unwrap())@
                &&& forall|other: ZoneId|
                    old(self).zones.has(other) && other != id ==> #[trigger] final(self).zones.members(other)
                        == old(self).zones.members(other)
            },
    {
        self.zones.get_mut(id)
    }

    /// Puts the members of the zone named `id` in a random order, and says
    /// whether the zone exists.
    pub fn shuffle_zone(&mut self, id: ZoneId) -> (found: bool)
        requires
            old(self).wf(),
        ensures
            final(self).wf(),
            found == old(self).zones.has(id),
            final(self).view() == old(self).view(),
            final(self).same_course(old(self)),
            found ==> final(self).zones.members(id).to_multiset() == old(self).zones.members(id).to_multiset(),
            forall|other: ZoneId|
                old(self).zones.has(other) && other != id ==> #[trigger] final(self).zones.members(other)
                    == old(self).zones.members(other),
            !found ==> final(self).zones == old(self).zones,
    {
        match self.zones.get_mut(id) {
            Some(zone) => {
                zone.shuffle();
            },
            None => {
                return false;
            },
        }
        proof {
            let before = old(self).zones.members(id);
            let after = self.zones.members(id);
            before.to_multiset_ensures();
            after.to_multiset_ensures();
            before.lemma_multiset_has_no_duplicates();
            after.lemma_multiset_has_no_duplicates_conv();
            assert forall|zone: ZoneId, entity: EntityId| self.zones.has(zone) implies (
            #[trigger] self.zones.members(zone).contains(entity) <==> in_zone(self.view(), entity, zone)) by {
                assert(old(self).zones.members(zone).contains(entity) <==> in_zone(old(self).view(), entity, zone));
                if zone == id {
                    assert(after.to_multiset().count(entity) == before.to_multiset().count(entity));
                    assert(after.contains(entity) <==> before.contains(entity));
                }
            }
            assert forall|zone: ZoneId| self.zones.has(zone) implies (#[trigger] self.zones.members(zone)).no_duplicates() by {
                assert(old(self).zones.members(zone).no_duplicates());
            }
        }
        true
    }
}

impl Game {
    /// Takes the entity `id` out of the store and, where it is an object,
    /// out of the list of its zone. Says whether it was alive.
    pub fn despawn(&mut self, id: EntityId) -> (was_alive: bool)
        requires
            old(self).wf(),
        ensures
            final(self).wf(),
            was_alive == old(self).view().dom().contains(id),
            final(self).view() == old(self).view().remove(id),
            zones_pruned(old(self).zones, final(self).zones, final(self).view().dom()),
            final(self).same_course(old(self)),
    {
        match get_object(&self.world, id) {
            Some(object) => {
                match self.zones.get_mut(object.zone) {
                    Some(zone) => {
                        zone.remove(id);
                    },
                    None => {},
                }
            },
            None => {},
        }
        let was_alive = world_despawn(&mut self.world, id);
        proof {
            let before = old(self).view();
            let after = self.view();
            let alive = after.dom();
            assert forall|zone: ZoneId| old(self).zones.has(zone) implies #[trigger] self.zones.members(zone) == crate::zone::kept(
                old(self).zones.members(zone),
                alive,
                old(self).zones.members(zone).len() as int,
            ) by {
                let list = old(self).zones.members(zone);
                assert forall|i: int| 0 <= i < list.len() && list[i] != id implies alive.contains(#[trigger] list[i]) by {
                    assert(list.contains(list[i]));
                    assert(in_zone(before, list[i], zone));
                }
                if in_zone(before, id, zone) {
                    lemma_without_is_kept(list, id, alive, list.len() as int);
                } else {
                    assert(!list.contains(id));
                    assert forall|i: int| 0 <= i < list.len() implies alive.contains(#[trigger] list[i]) by {
                        assert(list.contains(list[i]));
                    }
                    lemma_kept_all(list, alive, list.len() as int);
                    assert(list.subrange(0, list.len() as int) == list);
                }
            }
            assert forall|zone: ZoneId, other: EntityId| self.zones.has(zone) implies (
            #[trigger] self.zones.members(zone).contains(other) <==> in_zone(after, other, zone)) by {
                let list = old(self).zones.members(zone);
                lemma_kept_holds(list, alive, list.len() as int);
                assert(list.subrange(0, list.len() as int) == list);
                assert(list.contains(other) <==> in_zone(before, other, zone));
            }
            assert forall|zone: ZoneId| self.zones.has(zone) implies (#[trigger] self.zones.members(zone)).no_duplicates() by {
                let list = old(self).zones.members(zone);
                lemma_kept_holds(list, alive, list.len() as int);
                assert(list.subrange(0, list.len() as int) == list);
            }
        }
        was_alive
    }
}

} // verus!
