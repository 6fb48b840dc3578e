//! State-based actions: what the game puts right by itself before a player
//! gets priority.

use vstd::prelude::*;
use crate::entity::EntityId;
use crate::game::Game;
use crate::player::Player;
use crate::store::{list_attached_to, world_contains, Facets};
use crate::zone::{lemma_pruned_same, lemma_pruned_twice, zones_pruned};

verus! {

/// Whether `id` is alive in `view` and tied to an entity that is not.
pub open spec fn orphaned(view: Map<EntityId, Facets>, id: EntityId) -> bool {
    &&& view.dom().contains(id)
    &&& view[id].attached_to.is_some()
    &&& !view.dom().contains(view[id].attached_to.unwrap().target)
}

/// The entities of `view` that are orphaned.
pub open spec fn orphans(view: Map<EntityId, Facets>) -> Set<EntityId> {
    Set::new(|id: EntityId| orphaned(view, id))
}

/// The entities of `view` that are tied to another entity.
pub open spec fn tied(view: Map<EntityId, Facets>) -> Set<EntityId> {
    Set::new(|id: EntityId| view.dom().contains(id) && view[id].attached_to.is_some())
}

/// Whether `player` is at no life and not yet marked as having lost.
pub open spec fn due_to_lose(player: Player) -> bool {
    !player.has_lost && player.life <= 0
}

/// Whether some player of `players` is due to lose.
pub open spec fn someone_due(players: Seq<Player>) -> bool {
    exists|i: int| 0 <= i < players.len() && due_to_lose(#[trigger] players[i])
}

/// `player` once the check on life has been made.
pub open spec fn checked(player: Player) -> Player {
    Player { has_lost: player.has_lost || player.life <= 0, ..player }
}

/// Whether a pass over `game` finds anything to do.
pub open spec fn pending(game: &Game) -> bool {
    (exists|id: EntityId| orphaned(game.view(), id)) || someone_due(game.players.inner@)
}

/// A bound on the passes that are still to come: each pass that does
/// anything lowers it.
pub open spec fn unrest(game: &Game) -> nat {
    2 * tied(game.view()).len() + if someone_due(game.players.inner@) {
        1nat
    } else {
        0nat
    }
}

/// Whether `after` is `before` with one pass made: every orphaned entity is
/// gone from the store and from the lists of the zones, every player at no
/// life is marked as having lost, and nothing else differs.
pub open spec fn one_pass(before: &Game, after: &Game) -> bool {
    &&& after.view() == before.view().remove_keys(orphans(before.view()))
    &&& after.players.inner@.len() == before.players.inner@.len()
    &&& forall|i: int|
        0 <= i < before.players.inner@.len() ==> #[trigger] after.players.inner@[i] == checked(
            before.players.inner@[i],
        )
    &&& zones_pruned(before.zones, after.zones, after.view().dom())
    &&& after.same_turn(before)
}

/// Makes one pass of the state-based actions: despawns every entity that is
/// tied to an entity that is gone, and marks every player at no life as
/// having lost. Says whether anything was done.
pub fn apply(game: &mut Game) -> (performed: bool)
    requires
        old(game).wf(),
    ensures
        final(game).wf(),
        one_pass(old(game), final(game)),
        performed == pending(old(game)),
        !performed ==> final(game).view() == old(game).view() && final(game).players == old(
            game,
        ).players && final(game).zones == old(game).zones,
        performed ==> unrest(final(game)) < unrest(old(game)),
{
    let mut actions_performed = false;
    let ghost before = game.view();
    let listing = list_attached_to(&game.world);
    let mut entities_to_despawn: Vec<EntityId> = Vec::new();
    let mut i: usize = 0;
    while i < listing.len()
        invariant
            i <= listing.len(),
            game.view() == before,
            actions_performed == (entities_to_despawn@.len() > 0),
            forall|k: int| 0 <= k < entities_to_despawn@.len() ==> orphaned(before, #[trigger] entities_to_despawn@[k]),
            forall|j: int| 0 <= j < i && orphaned(before, (#[trigger] listing@[j]).0) ==> entities_to_despawn@.contains(listing@[j].0),
            crate::store::lists(listing@, before, |f: Facets| f.attached_to),
        decreases listing.len() - i,
    {
        let entity = listing[i].0;
        let attached = listing[i].1;
        if !world_contains(&game.world, attached.target) {
            let ghost earlier = entities_to_despawn@;
            entities_to_despawn.push(entity);
            actions_performed = true;
            proof {
                assert(entities_to_despawn@[earlier.len() as int] == entity);
                assert forall|j: int| 0 <= j < i && orphaned(before, (#[trigger] listing@[j]).0) implies entities_to_despawn@.contains(listing@[j].0) by {
                    let k = choose|k: int| 0 <= k < earlier.len() && earlier[k] == listing@[j].0;
                    assert(entities_to_despawn@[k] == listing@[j].0);
                }
            }
        }
        i += 1;
    }
    proof {
        assert forall|id: EntityId| orphaned(before, id) implies entities_to_despawn@.contains(id) by {
            assert(before.dom().contains(id));
            let j = choose|j: int| 0 <= j < listing@.len() && (#[trigger] listing@[j]).0 == id;
            assert(orphaned(before, listing@[j].0));
        }
        if actions_performed {
            assert(orphaned(before, entities_to_despawn@[0]));
        }
        assert(actions_performed == (exists|id: EntityId| orphaned(before, id)));
    }
    proof {
        assert forall|zone: crate::zone::ZoneId, id: EntityId|
            game.zones.has(zone) && #[trigger] game.zones.members(zone).contains(id) implies before.dom().contains(id) by {
            assert(crate::game::in_zone(before, id, zone));
        }
        lemma_pruned_same(game.zones, before.dom());
        assert(before.remove_keys(entities_to_despawn@.subrange(0, 0).to_set()) =~= before);
    }
    let mut k: usize = 0;
    while k < entities_to_despawn.len()
        invariant
            k <= entities_to_despawn.len(),
            game.view() == before.remove_keys(entities_to_despawn@.subrange(0, k as int).to_set()),
            game.wf(),
            zones_pruned(old(game).zones, game.zones, game.view().dom()),
            k == 0 ==> game.zones == old(game).zones,
            game.players == old(game).players,
            game.same_turn(old(game)),
            actions_performed == (exists|id: EntityId| orphaned(before, id)),
        decreases entities_to_despawn.len() - k,
    {
        let ghost earlier = *game;
        game.despawn(entities_to_despawn[k]);
        proof {
            lemma_pruned_twice(
                old(game).zones,
                earlier.zones,
                game.zones,
                earlier.view().dom(),
                game.view().dom(),
            );
            let done = entities_to_despawn@.subrange(0, k as int);
            let more = entities_to_despawn@.subrange(0, k as int + 1);
            assert(more == done.push(entities_to_despawn@[k as int]));
            assert(more.to_set() =~= done.to_set().insert(entities_to_despawn@[k as int])) by {
                assert forall|x: EntityId| more.to_set().contains(x) <==> done.to_set().insert(entities_to_despawn@[k as int]).contains(x) by {
                    if more.contains(x) {
                        let j = choose|j: int| 0 <= j < more.len() && more[j] == x;
                        if j < k {
                            assert(done[j] == x);
                        }
                    }
                    if done.contains(x) {
                        let j = choose|j: int| 0 <= j < done.len() && done[j] == x;
                        assert(more[j] == x);
                    }
                    assert(more[k as int] == entities_to_despawn@[k as int]);
                }
            }
            assert(game.view() =~= before.remove_keys(more.to_set()));
        }
        k += 1;
    }
    proof {
        assert(entities_to_despawn@.subrange(0, k as int) == entities_to_despawn@);
        assert(entities_to_despawn@.to_set() =~= orphans(before)) by {
            assert forall|x: EntityId| entities_to_despawn@.to_set().contains(x) <==> orphans(before).contains(x) by {
                if entities_to_despawn@.contains(x) {
                    let j = choose|j: int| 0 <= j < entities_to_despawn@.len() && entities_to_despawn@[j] == x;
                    assert(orphaned(before, entities_to_despawn@[j]));
                }
            }
        }
    }
    let ghost players_before = game.players.inner@;
    let ghost purged_once = *game;
    let mut p: usize = 0;
    let mut someone_marked = false;
    while p < game.players.inner.len()
        invariant
            p <= game.players.inner@.len(),
            game.players.inner@.len() == players_before.len(),
            players_before == old(game).players.inner@,
            game.view() == before.remove_keys(orphans(before)),
            game.zones == purged_once.zones,
            !actions_performed ==> game.zones == old(game).zones,
            game.world == purged_once.world,
            purged_once.wf(),
            zones_pruned(old(game).zones, game.zones, game.view().dom()),
            game.same_turn(old(game)),
            forall|j: int| 0 <= j < p ==> #[trigger] game.players.inner@[j] == checked(players_before[j]),
            forall|j: int| p <= j < players_before.len() ==> #[trigger] game.players.inner@[j] == players_before[j],
            someone_marked == (exists|j: int| 0 <= j < p && due_to_lose(#[trigger] players_before[j])),
            !someone_marked ==> game.players == old(game).players,
            actions_performed == (exists|id: EntityId| orphaned(before, id)),
        decreases game.players.inner@.len() - p,
    {
        if !game.players.inner[p].has_lost && game.players.inner[p].life <= 0 {
            game.players.inner[p].has_lost = true;
            someone_marked = true;
            assert(due_to_lose(players_before[p as int]));
        }
        assert(game.players.inner@[p as int] == checked(players_before[p as int]));
        p += 1;
    }
    if someone_marked {
        actions_performed = true;
    }
    proof {
        lemma_pass_calms(old(game), game, listing@);
        if !actions_performed {
            assert(orphans(before) =~= Set::<EntityId>::empty());
            assert(game.view() =~= before);
        }
    }
    actions_performed
}

/// A pass leaves the players in their places and none of them due to
/// lose, and lowers the unrest of the game wherever it had anything to do.
proof fn lemma_pass_calms(before: &Game, after: &Game, listing: Seq<(EntityId, crate::components::AttachedToEntity)>)
    requires
        before.players.wf(),
        one_pass(before, after),
        crate::store::lists(listing, before.view(), |f: Facets| f.attached_to),
    ensures
        after.players.wf(),
        !someone_due(after.players.inner@),
        pending(before) ==> unrest(after) < unrest(before),
{
    let old_view = before.view();
    let new_view = after.view();
    let ids = listing.map_values(|entry: (EntityId, crate::components::AttachedToEntity)| entry.0);
    assert(ids.no_duplicates());
    assert(ids.to_set() =~= tied(old_view)) by {
        assert forall|x: EntityId| ids.to_set().contains(x) <==> tied(old_view).contains(x) by {
            if ids.contains(x) {
                let j = choose|j: int| 0 <= j < ids.len() && ids[j] == x;
                assert(listing[j].0 == x);
            }
            if tied(old_view).contains(x) {
                assert(old_view.dom().contains(x));
                let j = choose|j: int| 0 <= j < listing.len() && (#[trigger] listing[j]).0 == x;
                assert(ids[j] == x);
            }
        }
    }
    vstd::seq_lib::seq_to_set_is_finite(ids);
    assert(tied(old_view).finite());
    assert(tied(new_view).subset_of(tied(old_view)));
    vstd::set_lib::lemma_len_subset(tied(new_view), tied(old_view));
    if exists|id: EntityId| orphaned(old_view, id) {
        let gone = choose|id: EntityId| orphaned(old_view, id);
        assert(tied(old_view).contains(gone));
        assert(!new_view.dom().contains(gone));
        assert(tied(new_view).subset_of(tied(old_view).remove(gone)));
        vstd::set_lib::lemma_len_subset(tied(new_view), tied(old_view).remove(gone));
    }
    assert(!someone_due(after.players.inner@)) by {
        if someone_due(after.players.inner@) {
            let i = choose|i: int| 0 <= i < after.players.inner@.len() && due_to_lose(#[trigger] after.players.inner@[i]);
            assert(after.players.inner@[i] == checked(before.players.inner@[i]));
        }
    }
    assert(after.players.wf()) by {
        assert forall|i: int| 0 <= i < after.players.inner@.len() implies (#[trigger] after.players.inner@[i]).id == crate::player::PlayerId(i as u32) by {
            assert(after.players.inner@[i] == checked(before.players.inner@[i]));
        }
    }
}

/// Whether `id` is alive in `view` and a chain of at most `steps` ties
/// leads from it to an entity that is not: it is tied to one that is gone,
/// or to one of which that holds with one step less.
pub open spec fn doomed_within(view: Map<EntityId, Facets>, id: EntityId, steps: nat) -> bool
    decreases steps,
{
    &&& steps > 0
    &&& view.dom().contains(id)
    &&& view[id].attached_to.is_some()
    &&& (!view.dom().contains(view[id].attached_to.unwrap().target) || doomed_within(
        view,
        view[id].attached_to.unwrap().target,
        (steps - 1) as nat,
    ))
}

/// Whether a chain of ties leads from `id` to an entity that is gone.
pub open spec fn doomed(view: Map<EntityId, Facets>, id: EntityId) -> bool {
    exists|steps: nat| doomed_within(view, id, steps)
}

/// `view` without its doomed entities: what the state-based actions leave
/// of it once nothing is left to do.
pub open spec fn purged(view: Map<EntityId, Facets>) -> Map<EntityId, Facets> {
    view.remove_keys(Set::new(|id: EntityId| doomed(view, id)))
}

/// Whether `after` is what the state-based actions make of `before` once
/// nothing is left to do: `before` without its doomed entities.
pub open spec fn settled_view(before: Map<EntityId, Facets>, after: Map<EntityId, Facets>) -> bool {
    after == purged(before)
}

/// Whether `part` holds some of the entities of `whole`, each as it is
/// there, and every entity that it does not hold is doomed in `whole`.
pub open spec fn partly_purged(whole: Map<EntityId, Facets>, part: Map<EntityId, Facets>) -> bool {
    &&& forall|id: EntityId| #[trigger]
        part.dom().contains(id) ==> whole.dom().contains(id) && part[id] == whole[id]
    &&& forall|id: EntityId| #[trigger]
        whole.dom().contains(id) && !part.dom().contains(id) ==> doomed(whole, id)
}

/// An orphan of a part of a store is doomed in the whole.
pub proof fn lemma_orphan_is_doomed(whole: Map<EntityId, Facets>, part: Map<EntityId, Facets>, id: EntityId)
    requires
        partly_purged(whole, part),
        orphaned(part, id),
    ensures
        doomed(whole, id),
{
    let target = whole[id].attached_to.unwrap().target;
    assert(part.dom().contains(id));
    if whole.dom().contains(target) {
        assert(doomed(whole, target));
        let steps = choose|steps: nat| doomed_within(whole, target, steps);
        assert(doomed_within(whole, id, steps + 1));
    } else {
        assert(doomed_within(whole, id, 1));
    }
}

/// In a part of a store that has no orphan, no entity is doomed in the
/// whole.
pub proof fn lemma_survivor_not_doomed(whole: Map<EntityId, Facets>, part: Map<EntityId, Facets>, id: EntityId, steps: nat)
    requires
        partly_purged(whole, part),
        forall|other: EntityId| !orphaned(part, other),
        part.dom().contains(id),
    ensures
        !doomed_within(whole, id, steps),
    decreases steps,
{
    if steps > 0 && whole[id].attached_to.is_some() {
        let target = whole[id].attached_to.unwrap().target;
        assert(!orphaned(part, id));
        assert(part.dom().contains(target));
        lemma_survivor_not_doomed(whole, part, target, (steps - 1) as nat);
    }
}

/// A part of a store that has no orphan, and lacks only doomed entities, is
/// the store without its doomed entities.
pub proof fn lemma_purged_when_calm(whole: Map<EntityId, Facets>, part: Map<EntityId, Facets>)
    requires
        partly_purged(whole, part),
        forall|other: EntityId| !orphaned(part, other),
    ensures
        part == purged(whole),
{
    assert forall|id: EntityId| part.dom().contains(id) implies !doomed(whole, id) by {
        if doomed(whole, id) {
            let steps = choose|steps: nat| doomed_within(whole, id, steps);
            lemma_survivor_not_doomed(whole, part, id, steps);
        }
    }
    assert(part =~= purged(whole));
}

/// A store without orphans has no doomed entity: the state-based actions
/// leave it as it is. And what they leave has no orphan.
pub proof fn lemma_purged_is_calm(view: Map<EntityId, Facets>)
    ensures
        (forall|id: EntityId| !orphaned(view, id)) ==> purged(view) == view,
        forall|id: EntityId| !orphaned(purged(view), id),
        purged(purged(view)) == purged(view),
{
    if forall|id: EntityId| !orphaned(view, id) {
        assert(partly_purged(view, view));
        lemma_purged_when_calm(view, view);
    }
    let rest = purged(view);
    assert forall|id: EntityId| !orphaned(rest, id) by {
        if orphaned(rest, id) {
            assert(partly_purged(view, rest));
            lemma_orphan_is_doomed(view, rest, id);
        }
    }
    assert(partly_purged(rest, rest));
    lemma_purged_when_calm(rest, rest);
}

/// Whether the players `after` are the players `before`, each marked as
/// having lost if `check` is set and the player was at no life, each with
/// no land played this turn if `reset` is set, and otherwise unchanged.
pub open spec fn players_evolved(before: Seq<Player>, after: Seq<Player>, check: bool, reset: bool) -> bool {
    &&& after.len() == before.len()
    &&& forall|i: int|
        0 <= i < before.len() ==> #[trigger] after[i] == (Player {
            has_lost: before[i].has_lost || (check && before[i].life <= 0),
            lands_played_this_turn: if reset {
                0
            } else {
                before[i].lands_played_this_turn
            },
            ..before[i]
        })
}

/// Whether `after` is what a run of the state-based actions to the end
/// makes of `before`: nothing is pending in `after`; the store has lost its
/// doomed entities and nothing else; every player at no life is marked as
/// having lost; nothing else differs, and where nothing was pending in
/// `before` nothing differs at all.
pub open spec fn settled(before: &Game, after: &Game) -> bool {
    &&& !pending(after)
    &&& settled_view(before.view(), after.view())
    &&& players_evolved(before.players.inner@, after.players.inner@, true, false)
    &&& !pending(before) ==> after.players == before.players
    &&& zones_pruned(before.zones, after.zones, after.view().dom())
    &&& !pending(before) ==> after.zones == before.zones
    &&& after.same_turn(before)
}

/// A second run of the state-based actions straight after a first changes
/// nothing: the first leaves nothing pending, and a run on a game with
/// nothing pending leaves the store, the players, the zones and the course
/// of the game as they are. A single pass then reports that it did nothing,
/// since it reports whether anything was pending.
pub proof fn lemma_second_run_changes_nothing(first: &Game, second: &Game, third: &Game)
    requires
        settled(first, second),
        settled(second, third),
    ensures
        !pending(second),
        third.view() == second.view(),
        third.players == second.players,
        third.zones == second.zones,
        third.same_turn(second),
{
    lemma_purged_is_calm(first.view());
}

impl Game {
    /// Makes passes of the state-based actions until a pass finds nothing
    /// to do. A game in which nothing is pending is left as it is, so a
    /// second run straight after a first changes nothing.
    pub fn apply_state_based_actions(&mut self)
        requires
            old(self).wf(),
        ensures
            final(self).wf(),
            settled(old(self), final(self)),
    {
        proof {
            assert forall|zone: crate::zone::ZoneId, id: EntityId|
                self.zones.has(zone) && #[trigger] self.zones.members(zone).contains(id) implies self.view().dom().contains(
                id,
            ) by {
                assert(crate::game::in_zone(self.view(), id, zone));
            }
            lemma_pruned_same(self.zones, self.view().dom());
        }
        let mut again = true;
        while again
            invariant
                self.wf(),
                !again ==> !pending(self),
                zones_pruned(old(self).zones, self.zones, self.view().dom()),
                !pending(old(self)) ==> self.zones == old(self).zones,
                self.same_turn(old(self)),
                players_evolved(old(self).players.inner@, self.players.inner@, true, false)
                    || self.players == old(self).players,
                !again ==> players_evolved(old(self).players.inner@, self.players.inner@, true, false),
                !pending(old(self)) ==> self.players == old(self).players && self.view() == old(self).view(),
                partly_purged(old(self).view(), self.view()),
            decreases unrest(self), (if again { 1int } else { 0int }),
        {
            let ghost round = *self;
            again = apply(self);
            proof {
                lemma_pruned_twice(
                    old(self).zones,
                    round.zones,
                    self.zones,
                    round.view().dom(),
                    self.view().dom(),
                );
                assert forall|i: int| 0 <= i < old(self).players.inner@.len() implies #[trigger] self.players.inner@[i] == checked(
                    old(self).players.inner@[i],
                ) by {
                    assert(self.players.inner@[i] == checked(round.players.inner@[i]));
                    if !players_evolved(old(self).players.inner@, round.players.inner@, true, false) {
                        assert(round.players.inner@ == old(self).players.inner@);
                    } else {
                        assert(round.players.inner@[i] == checked(old(self).players.inner@[i]));
                    }
                }
                assert forall|id: EntityId| #[trigger]
                    old(self).view().dom().contains(id) && !self.view().dom().contains(id) implies doomed(
                    old(self).view(),
                    id,
                ) by {
                    if round.view().dom().contains(id) {
                        assert(orphaned(round.view(), id));
                        lemma_orphan_is_doomed(old(self).view(), round.view(), id);
                    }
                }
            }
        }
        proof {
            assert(forall|id: EntityId| !orphaned(self.view(), id));
            lemma_purged_when_calm(old(self).view(), self.view());
        }
    }
}

} // verus!
