//! Bringing effects, counters and damage into a game.

use vstd::prelude::*;
use crate::components::{AttachedToEntity, Counters, Damage, UntilEotEffect};
use crate::counters::Counter;
use crate::entity::EntityId;
use crate::game::{in_zone, Game};
use crate::pt::{AdjustPtEffect, SetPtEffect, SwitchPtEffect};
use crate::store::{
    insert_adjust_pt, insert_attached_to, insert_counters, insert_damage,
    insert_set_pt, insert_switch_pt, insert_until_eot, world_spawn, Facets,
};
use crate::zone::ZoneId;

verus! {

/// The zone index of a game stays right where the store changes in nothing
/// that the index reads.
pub proof fn lemma_index_kept(before: &Game, after: &Game)
    requires
        before.wf(),
        after.zones == before.zones,
        after.same_course(before),
        forall|id: EntityId|
            (#[trigger] after.view().dom().contains(id) && after.view()[id].object.is_some()) <==> (
            before.view().dom().contains(id) && before.view()[id].object.is_some()),
        forall|id: EntityId| #[trigger]
            after.view().dom().contains(id) && after.view()[id].object.is_some() ==> {
                &&& after.view()[id].object == before.view()[id].object
                &&& after.view()[id].permanent.is_some() == before.view()[id].permanent.is_some()
            },
        forall|id: EntityId| #[trigger]
            after.view().dom().contains(id) && after.view()[id].incomplete.is_some() ==> before.view().dom().contains(id)
                && after.view()[id].incomplete == before.view()[id].incomplete,
    ensures
        after.wf(),
{
    assert forall|zone: ZoneId, id: EntityId| after.zones.has(zone) implies (
    #[trigger] after.zones.members(zone).contains(id) <==> in_zone(after.view(), id, zone)) by {
        assert(before.zones.members(zone).contains(id) <==> in_zone(before.view(), id, zone));
        assert(after.view().dom().contains(id) && after.view()[id].object.is_some() <==> before.view().dom().contains(id) && before.view()[id].object.is_some());
    }
    assert forall|id: EntityId| #[trigger]
        after.view().dom().contains(id) && after.view()[id].object.is_some() implies after.zones.has(after.view()[id].object.unwrap().zone) by {
        assert(before.view().dom().contains(id) && before.view()[id].object.is_some());
    }
}

impl Game {
    /// Whether `self` is `before` with one new entity `id` that carries
    /// `facets` and nothing else changed.
    pub open spec fn spawned(&self, before: &Game, id: EntityId, facets: Facets) -> bool {
        &&& !before.view().dom().contains(id)
        &&& self.view() == before.view().insert(id, facets)
        &&& self.zones == before.zones
        &&& self.same_course(before)
    }

    /// Whether `self` is `before` with the components of `id` replaced by
    /// `facets` and nothing else changed.
    pub open spec fn refitted(&self, before: &Game, id: EntityId, facets: Facets) -> bool {
        &&& self.view() == before.view().insert(id, facets)
        &&& self.zones == before.zones
        &&& self.same_course(before)
    }

    /// Whether `self` is `before` in the store, the zones and the course of
    /// the game.
    pub open spec fn untouched(&self, before: &Game) -> bool {
        &&& self.view() == before.view()
        &&& self.zones == before.zones
        &&& self.same_course(before)
    }

    /// Brings an effect into the game that sets the power and toughness of
    /// its target.
    pub fn add_set_pt_effect(&mut self, effect: SetPtEffect) -> (id: EntityId)
        requires
            old(self).wf(),
        ensures
            final(self).wf(),
            final(self).spawned(old(self), id, (Facets { set_pt: Some(effect), ..Facets::bare() })),
    {
        let id = world_spawn(&mut self.world);
        insert_set_pt(&mut self.world, id, effect);
        proof {
            assert(self.view() =~= old(self).view().insert(id, (Facets { set_pt: Some(effect), ..Facets::bare() })));
            lemma_index_kept(old(self), self);
        }
        id
    }

    /// Brings an effect into the game that adds to the power and toughness
    /// of its target.
    pub fn add_adjust_pt_effect(&mut self, effect: AdjustPtEffect) -> (id: EntityId)
        requires
            old(self).wf(),
        ensures
            final(self).wf(),
            final(self).spawned(old(self), id, (Facets { adjust_pt: Some(effect), ..Facets::bare() })),
    {
        let id = world_spawn(&mut self.world);
        insert_adjust_pt(&mut self.world, id, effect);
        proof {
            assert(self.view() =~= old(self).view().insert(id, (Facets { adjust_pt: Some(effect), ..Facets::bare() })));
            lemma_index_kept(old(self), self);
        }
        id
    }

    /// Brings an effect into the game that exchanges the power and
    /// toughness of its target.
    pub fn add_switch_pt_effect(&mut self, effect: SwitchPtEffect) -> (id: EntityId)
        requires
            old(self).wf(),
        ensures
            final(self).wf(),
            final(self).spawned(old(self), id, (Facets { switch_pt: Some(effect), ..Facets::bare() })),
    {
        let id = world_spawn(&mut self.world);
        insert_switch_pt(&mut self.world, id, effect);
        proof {
            assert(self.view() =~= old(self).view().insert(id, (Facets { switch_pt: Some(effect), ..Facets::bare() })));
            lemma_index_kept(old(self), self);
        }
        id
    }

    /// Lets the entity `id` last until the next cleanup step, which takes
    /// it away. The answer is no for an entity that is gone.
    pub fn end_at_end_of_turn(&mut self, id: EntityId) -> (marked: bool)
        requires
            old(self).wf(),
        ensures
            final(self).wf(),
            marked == old(self).view().dom().contains(id),
            marked ==> final(self).refitted(
                old(self),
                id,
                (Facets { until_eot: Some(UntilEotEffect), ..old(self).view()[id] }),
            ),
            !marked ==> final(self).untouched(old(self)),
    {
        let marked = insert_until_eot(&mut self.world, id, UntilEotEffect);
        proof {
            lemma_index_kept(old(self), self);
        }
        marked
    }

    /// Ties the life of the entity `id` to that of `target`: once `target`
    /// is gone, the state-based actions take `id` away. The answer is no
    /// for an entity that is gone.
    pub fn attach_to_entity(&mut self, id: EntityId, target: EntityId) -> (tied: bool)
        requires
            old(self).wf(),
        ensures
            final(self).wf(),
            tied == old(self).view().dom().contains(id),
            tied ==> final(self).refitted(
                old(self),
                id,
                (Facets { attached_to: Some(AttachedToEntity { target }), ..old(self).view()[id] }),
            ),
            !tied ==> final(self).untouched(old(self)),
    {
        let tied = insert_attached_to(&mut self.world, id, AttachedToEntity { target });
        proof {
            lemma_index_kept(old(self), self);
        }
        tied
    }

    /// Puts `counters` on the entity `id`, in place of those it had. The
    /// answer is no for an entity that is gone.
    pub fn set_counters(&mut self, id: EntityId, counters: Vec<Counter>) -> (set: bool)
        requires
            old(self).wf(),
        ensures
            final(self).wf(),
            set == old(self).view().dom().contains(id),
            set ==> final(self).refitted(
                old(self),
                id,
                (Facets { counters: Some(Counters { counters }), ..old(self).view()[id] }),
            ),
            !set ==> final(self).untouched(old(self)),
    {
        let set = insert_counters(&mut self.world, id, Counters { counters });
        proof {
            lemma_index_kept(old(self), self);
        }
        set
    }

    /// Marks `amount` damage on the entity `id`, in place of what was
    /// marked. The answer is no for an entity that is gone.
    pub fn mark_damage(&mut self, id: EntityId, amount: u64) -> (marked: bool)
        requires
            old(self).wf(),
        ensures
            final(self).wf(),
            marked == old(self).view().dom().contains(id),
            marked ==> final(self).refitted(
                old(self),
                id,
                (Facets { damage: Some(Damage { amount }), ..old(self).view()[id] }),
            ),
            !marked ==> final(self).untouched(old(self)),
    {
        let marked = insert_damage(&mut self.world, id, Damage { amount });
        proof {
            lemma_index_kept(old(self), self);
        }
        marked
    }
}

} // verus!
