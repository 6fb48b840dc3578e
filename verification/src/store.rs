//! The object store: a `hecs::World`, and what the engine takes for granted
//! of it.
//!
//! Nothing in this file is proved. Every function here makes one call into
//! `hecs` and states, over [`world_view`], what that call does. A handle that
//! is no valid bit pattern of a `hecs::Entity` names no entity, and each
//! function treats it so.

use vstd::prelude::*;
use crate::components::{
    AttachedToEntity, Card, Counters, Damage, IncompleteSpell, Object, Permanent, UntilEotEffect,
};
use crate::entity::EntityId;
use crate::pt::{AdjustPtEffect, SetPtEffect, SwitchPtEffect};

verus! {

#[verifier::external_type_specification]
#[verifier::external_body]
pub struct ExWorld(hecs::World);

/// The components of one entity, each present or absent.
pub struct Facets {
    pub object: Option<Object>,
    pub card: Option<Card>,
    pub permanent: Option<Permanent>,
    pub incomplete: Option<IncompleteSpell>,
    pub until_eot: Option<UntilEotEffect>,
    pub attached_to: Option<AttachedToEntity>,
    pub damage: Option<Damage>,
    pub set_pt: Option<SetPtEffect>,
    pub adjust_pt: Option<AdjustPtEffect>,
    pub switch_pt: Option<SwitchPtEffect>,
    pub counters: Option<Counters>,
}

impl Facets {
    /// An entity without components.
    pub open spec fn bare() -> Facets {
        Facets {
            object: None,
            card: None,
            permanent: None,
            incomplete: None,
            until_eot: None,
            attached_to: None,
            damage: None,
            set_pt: None,
            adjust_pt: None,
            switch_pt: None,
            counters: None,
        }
    }
}

/// What a world holds: its live entities, each with its components.
pub uninterp spec fn world_view(w: hecs::World) -> Map<EntityId, Facets>;

/// The component that `pick` chooses, of the entity `id` in `view`; none
/// where `id` is not alive.
pub open spec fn facet_of<T>(view: Map<EntityId, Facets>, id: EntityId, pick: spec_fn(Facets) -> Option<T>) -> Option<T> {
    if view.dom().contains(id) {
        pick(view[id])
    } else {
        None
    }
}

/// Whether `listing` names each live entity of `view` that carries the
/// component `pick` chooses exactly once, with that component.
pub open spec fn lists<T>(listing: Seq<(EntityId, T)>, view: Map<EntityId, Facets>, pick: spec_fn(Facets) -> Option<T>) -> bool {
    &&& forall|i: int, j: int| 0 <= i < j < listing.len() ==> listing[i].0 != listing[j].0
    &&& forall|i: int| 0 <= i < listing.len() ==> view.dom().contains((#[trigger] listing[i]).0) && pick(view[listing[i].0]) == Some(listing[i].1)
    &&& forall|id: EntityId| #[trigger] view.dom().contains(id) && pick(view[id]).is_some() ==> exists|i: int| 0 <= i < listing.len() && (#[trigger] listing[i]).0 == id
}

/// `World::new`: a world without entities.
#[verifier::external_body]
pub(crate) fn world_new() -> (world: hecs::World)
    ensures
        world_view(world).dom() == Set::<EntityId>::empty(),
{
    hecs::World::new()
}

/// `World::spawn` with the empty bundle: a new entity without components.
/// Its handle names no entity that was alive before the call.
#[verifier::external_body]
pub(crate) fn world_spawn(w: &mut hecs::World) -> (id: EntityId)
    ensures
        !world_view(*old(w)).dom().contains(id),
        world_view(*final(w)) == world_view(*old(w)).insert(id, Facets::bare()),
{
    EntityId(w.spawn(()).to_bits().get())
}

/// `World::despawn`: removes the entity with all its components, and
/// reports whether it was alive.
#[verifier::external_body]
pub(crate) fn world_despawn(w: &mut hecs::World, id: EntityId) -> (was_alive: bool)
    ensures
        was_alive == world_view(*old(w)).dom().contains(id),
        world_view(*final(w)) == world_view(*old(w)).remove(id),
{
    match hecs::Entity::from_bits(id.0) {
        Some(entity) => w.despawn(entity).is_ok(),
        None => false,
    }
}

/// `World::contains`: whether the entity is alive.
#[verifier::external_body]
pub(crate) fn world_contains(w: &hecs::World, id: EntityId) -> (alive: bool)
    ensures
        alive == world_view(*w).dom().contains(id),
{
    match hecs::Entity::from_bits(id.0) {
        Some(entity) => w.contains(entity),
        None => false,
    }
}

/// `World::get::<&Object>`: a copy of the entity's `Object`, if the entity is
/// alive and carries one.
#[verifier::external_body]
pub(crate) fn get_object(w: &hecs::World, id: EntityId) -> (found: Option<Object>)
    ensures
        found == facet_of(world_view(*w), id, |f: Facets| f.object),
{
    match hecs::Entity::from_bits(id.0) {
        Some(entity) => w.get::<&Object>(entity).ok().map(|c| (*c).clone()),
        None => None,
    }
}

/// `World::get::<&Permanent>`: a copy of the entity's `Permanent`, if the entity is
/// alive and carries one.
#[verifier::external_body]
pub(crate) fn get_permanent(w: &hecs::World, id: EntityId) -> (found: Option<Permanent>)
    ensures
        found == facet_of(world_view(*w), id, |f: Facets| f.permanent),
{
    match hecs::Entity::from_bits(id.0) {
        Some(entity) => w.get::<&Permanent>(entity).ok().map(|c| (*c).clone()),
        None => None,
    }
}

/// `World::get::<&IncompleteSpell>`: a copy of the entity's `IncompleteSpell`, if the entity is
/// alive and carries one.
#[verifier::external_body]
pub(crate) fn get_incomplete(w: &hecs::World, id: EntityId) -> (found: Option<IncompleteSpell>)
    ensures
        found == facet_of(world_view(*w), id, |f: Facets| f.incomplete),
{
    match hecs::Entity::from_bits(id.0) {
        Some(entity) => w.get::<&IncompleteSpell>(entity).ok().map(|c| (*c).clone()),
        None => None,
    }
}

/// `World::get::<&Counters>`: a copy of the entity's `Counters`, if the entity is
/// alive and carries one.
#[verifier::external_body]
pub(crate) fn get_counters(w: &hecs::World, id: EntityId) -> (found: Option<Counters>)
    ensures
        found == facet_of(world_view(*w), id, |f: Facets| f.counters),
{
    match hecs::Entity::from_bits(id.0) {
        Some(entity) => w.get::<&Counters>(entity).ok().map(|c| (*c).clone()),
        None => None,
    }
}

/// `World::insert_one` with a `Object`: gives it to the entity, in place of
/// the one it carried if it carried one, and reports whether the entity was
/// alive. The other components and the other entities stay as they are.
#[verifier::external_body]
pub(crate) fn insert_object(w: &mut hecs::World, id: EntityId, value: Object) -> (was_alive: bool)
    ensures
        was_alive == world_view(*old(w)).dom().contains(id),
        was_alive ==> world_view(*final(w)) == world_view(*old(w)).insert(
            id,
            (Facets { object: Some(value), ..world_view(*old(w))[id] }),
        ),
        !was_alive ==> world_view(*final(w)) == world_view(*old(w)),
{
    match hecs::Entity::from_bits(id.0) {
        Some(entity) => w.insert_one(entity, value).is_ok(),
        None => false,
    }
}

/// `World::insert_one` with a `Card`: gives it to the entity, in place of
/// the one it carried if it carried one, and reports whether the entity was
/// alive. The other components and the other entities stay as they are.
#[verifier::external_body]
pub(crate) fn insert_card(w: &mut hecs::World, id: EntityId, value: Card) -> (was_alive: bool)
    ensures
        was_alive == world_view(*old(w)).dom().contains(id),
        was_alive ==> world_view(*final(w)) == world_view(*old(w)).insert(
            id,
            (Facets { card: Some(value), ..world_view(*old(w))[id] }),
        ),
        !was_alive ==> world_view(*final(w)) == world_view(*old(w)),
{
    match hecs::Entity::from_bits(id.0) {
        Some(entity) => w.insert_one(entity, value).is_ok(),
        None => false,
    }
}

/// `World::insert_one` with a `Permanent`: gives it to the entity, in place of
/// the one it carried if it carried one, and reports whether the entity was
/// alive. The other components and the other entities stay as they are.
#[verifier::external_body]
pub(crate) fn insert_permanent(w: &mut hecs::World, id: EntityId, value: Permanent) -> (was_alive: bool)
    ensures
        was_alive == world_view(*old(w)).dom().contains(id),
        was_alive ==> world_view(*final(w)) == world_view(*old(w)).insert(
            id,
            (Facets { permanent: Some(value), ..world_view(*old(w))[id] }),
        ),
        !was_alive ==> world_view(*final(w)) == world_view(*old(w)),
{
    match hecs::Entity::from_bits(id.0) {
        Some(entity) => w.insert_one(entity, value).is_ok(),
        None => false,
    }
}

/// `World::insert_one` with a `IncompleteSpell`: gives it to the entity, in place of
/// the one it carried if it carried one, and reports whether the entity was
/// alive. The other components and the other entities stay as they are.
#[verifier::external_body]
pub(crate) fn insert_incomplete(w: &mut hecs::World, id: EntityId, value: IncompleteSpell) -> (was_alive: bool)
    ensures
        was_alive == world_view(*old(w)).dom().contains(id),
        was_alive ==> world_view(*final(w)) == world_view(*old(w)).insert(
            id,
            (Facets { incomplete: Some(value), ..world_view(*old(w))[id] }),
        ),
        !was_alive ==> world_view(*final(w)) == world_view(*old(w)),
{
    match hecs::Entity::from_bits(id.0) {
        Some(entity) => w.insert_one(entity, value).is_ok(),
        None => false,
    }
}

/// `World::insert_one` with a `UntilEotEffect`: gives it to the entity, in place of
/// the one it carried if it carried one, and reports whether the entity was
/// alive. The other components and the other entities stay as they are.
#[verifier::external_body]
pub(crate) fn insert_until_eot(w: &mut hecs::World, id: EntityId, value: UntilEotEffect) -> (was_alive: bool)
    ensures
        was_alive == world_view(*old(w)).dom().contains(id),
        was_alive ==> world_view(*final(w)) == world_view(*old(w)).insert(
            id,
            (Facets { until_eot: Some(value), ..world_view(*old(w))[id] }),
        ),
        !was_alive ==> world_view(*final(w)) == world_view(*old(w)),
{
    match hecs::Entity::from_bits(id.0) {
        Some(entity) => w.insert_one(entity, value).is_ok(),
        None => false,
    }
}

/// `World::insert_one` with a `AttachedToEntity`: gives it to the entity, in place of
/// the one it carried if it carried one, and reports whether the entity was
/// alive. The other components and the other entities stay as they are.
#[verifier::external_body]
pub(crate) fn insert_attached_to(w: &mut hecs::World, id: EntityId, value: AttachedToEntity) -> (was_alive: bool)
    ensures
        was_alive == world_view(*old(w)).dom().contains(id),
        was_alive ==> world_view(*final(w)) == world_view(*old(w)).insert(
            id,
            (Facets { attached_to: Some(value), ..world_view(*old(w))[id] }),
        ),
        !was_alive ==> world_view(*final(w)) == world_view(*old(w)),
{
    match hecs::Entity::from_bits(id.0) {
        Some(entity) => w.insert_one(entity, value).is_ok(),
        None => false,
    }
}

/// `World::insert_one` with a `Damage`: gives it to the entity, in place of
/// the one it carried if it carried one, and reports whether the entity was
/// alive. The other components and the other entities stay as they are.
#[verifier::external_body]
pub(crate) fn insert_damage(w: &mut hecs::World, id: EntityId, value: Damage) -> (was_alive: bool)
    ensures
        was_alive == world_view(*old(w)).dom().contains(id),
        was_alive ==> world_view(*final(w)) == world_view(*old(w)).insert(
            id,
            (Facets { damage: Some(value), ..world_view(*old(w))[id] }),
        ),
        !was_alive ==> world_view(*final(w)) == world_view(*old(w)),
{
    match hecs::Entity::from_bits(id.0) {
        Some(entity) => w.insert_one(entity, value).is_ok(),
        None => false,
    }
}

/// `World::insert_one` with a `SetPtEffect`: gives it to the entity, in place of
/// the one it carried if it carried one, and reports whether the entity was
/// alive. The other components and the other entities stay as they are.
#[verifier::external_body]
pub(crate) fn insert_set_pt(w: &mut hecs::World, id: EntityId, value: SetPtEffect) -> (was_alive: bool)
    ensures
        was_alive == world_view(*old(w)).dom().contains(id),
        was_alive ==> world_view(*final(w)) == world_view(*old(w)).insert(
            id,
            (Facets { set_pt: Some(value), ..world_view(*old(w))[id] }),
        ),
        !was_alive ==> world_view(*final(w)) == world_view(*old(w)),
{
    match hecs::Entity::from_bits(id.0) {
        Some(entity) => w.insert_one(entity, value).is_ok(),
        None => false,
    }
}

/// `World::insert_one` with a `AdjustPtEffect`: gives it to the entity, in place of
/// the one it carried if it carried one, and reports whether the entity was
/// alive. The other components and the other entities stay as they are.
#[verifier::external_body]
pub(crate) fn insert_adjust_pt(w: &mut hecs::World, id: EntityId, value: AdjustPtEffect) -> (was_alive: bool)
    ensures
        was_alive == world_view(*old(w)).dom().contains(id),
        was_alive ==> world_view(*final(w)) == world_view(*old(w)).insert(
            id,
            (Facets { adjust_pt: Some(value), ..world_view(*old(w))[id] }),
        ),
        !was_alive ==> world_view(*final(w)) == world_view(*old(w)),
{
    match hecs::Entity::from_bits(id.0) {
        Some(entity) => w.insert_one(entity, value).is_ok(),
        None => false,
    }
}

/// `World::insert_one` with a `SwitchPtEffect`: gives it to the entity, in place of
/// the one it carried if it carried one, and reports whether the entity was
/// alive. The other components and the other entities stay as they are.
#[verifier::external_body]
pub(crate) fn insert_switch_pt(w: &mut hecs::World, id: EntityId, value: SwitchPtEffect) -> (was_alive: bool)
    ensures
        was_alive == world_view(*old(w)).dom().contains(id),
        was_alive ==> world_view(*final(w)) == world_view(*old(w)).insert(
            id,
            (Facets { switch_pt: Some(value), ..world_view(*old(w))[id] }),
        ),
        !was_alive ==> world_view(*final(w)) == world_view(*old(w)),
{
    match hecs::Entity::from_bits(id.0) {
        Some(entity) => w.insert_one(entity, value).is_ok(),
        None => false,
    }
}

/// `World::insert_one` with a `Counters`: gives it to the entity, in place of
/// the one it carried if it carried one, and reports whether the entity was
/// alive. The other components and the other entities stay as they are.
#[verifier::external_body]
pub(crate) fn insert_counters(w: &mut hecs::World, id: EntityId, value: Counters) -> (was_alive: bool)
    ensures
        was_alive == world_view(*old(w)).dom().contains(id),
        was_alive ==> world_view(*final(w)) == world_view(*old(w)).insert(
            id,
            (Facets { counters: Some(value), ..world_view(*old(w))[id] }),
        ),
        !was_alive ==> world_view(*final(w)) == world_view(*old(w)),
{
    match hecs::Entity::from_bits(id.0) {
        Some(entity) => w.insert_one(entity, value).is_ok(),
        None => false,
    }
}

/// `World::remove_one::<Permanent>`: takes the `Permanent` from the entity, and
/// reports whether the entity was alive and carried one. The other
/// components and the other entities stay as they are.
#[verifier::external_body]
pub(crate) fn remove_permanent(w: &mut hecs::World, id: EntityId) -> (removed: bool)
    ensures
        removed == facet_of(world_view(*old(w)), id, |f: Facets| f.permanent).is_some(),
        removed ==> world_view(*final(w)) == world_view(*old(w)).insert(
            id,
            (Facets { permanent: None, ..world_view(*old(w))[id] }),
        ),
        !removed ==> world_view(*final(w)) == world_view(*old(w)),
{
    match hecs::Entity::from_bits(id.0) {
        Some(entity) => w.remove_one::<Permanent>(entity).is_ok(),
        None => false,
    }
}

/// `World::remove_one::<IncompleteSpell>`: takes the `IncompleteSpell` from the entity, and
/// reports whether the entity was alive and carried one. The other
/// components and the other entities stay as they are.
#[verifier::external_body]
pub(crate) fn remove_incomplete(w: &mut hecs::World, id: EntityId) -> (removed: bool)
    ensures
        removed == facet_of(world_view(*old(w)), id, |f: Facets| f.incomplete).is_some(),
        removed ==> world_view(*final(w)) == world_view(*old(w)).insert(
            id,
            (Facets { incomplete: None, ..world_view(*old(w))[id] }),
        ),
        !removed ==> world_view(*final(w)) == world_view(*old(w)),
{
    match hecs::Entity::from_bits(id.0) {
        Some(entity) => w.remove_one::<IncompleteSpell>(entity).is_ok(),
        None => false,
    }
}

/// `World::remove_one::<Damage>`: takes the `Damage` from the entity, and
/// reports whether the entity was alive and carried one. The other
/// components and the other entities stay as they are.
#[verifier::external_body]
pub(crate) fn remove_damage(w: &mut hecs::World, id: EntityId) -> (removed: bool)
    ensures
        removed == facet_of(world_view(*old(w)), id, |f: Facets| f.damage).is_some(),
        removed ==> world_view(*final(w)) == world_view(*old(w)).insert(
            id,
            (Facets { damage: None, ..world_view(*old(w))[id] }),
        ),
        !removed ==> world_view(*final(w)) == world_view(*old(w)),
{
    match hecs::Entity::from_bits(id.0) {
        Some(entity) => w.remove_one::<Damage>(entity).is_ok(),
        None => false,
    }
}

/// `World::query::<(Entity, &Object)>`, walked once: every live entity that
/// carries a `Object`, with a copy of it. The order is the store's own and
/// nothing is claimed of it.
#[verifier::external_body]
pub(crate) fn list_object(w: &hecs::World) -> (listing: Vec<(EntityId, Object)>)
    ensures
        lists(listing@, world_view(*w), |f: Facets| f.object),
{
    let mut query = w.query::<(hecs::Entity, &Object)>();
    query.iter().map(|(entity, c)| (EntityId(entity.to_bits().get()), c.clone())).collect()
}

/// `World::query::<(Entity, &UntilEotEffect)>`, walked once: every live entity that
/// carries a `UntilEotEffect`, with a copy of it. The order is the store's own and
/// nothing is claimed of it.
#[verifier::external_body]
pub(crate) fn list_until_eot(w: &hecs::World) -> (listing: Vec<(EntityId, UntilEotEffect)>)
    ensures
        lists(listing@, world_view(*w), |f: Facets| f.until_eot),
{
    let mut query = w.query::<(hecs::Entity, &UntilEotEffect)>();
    query.iter().map(|(entity, c)| (EntityId(entity.to_bits().get()), c.clone())).collect()
}

/// `World::query::<(Entity, &AttachedToEntity)>`, walked once: every live entity that
/// carries a `AttachedToEntity`, with a copy of it. The order is the store's own and
/// nothing is claimed of it.
#[verifier::external_body]
pub(crate) fn list_attached_to(w: &hecs::World) -> (listing: Vec<(EntityId, AttachedToEntity)>)
    ensures
        lists(listing@, world_view(*w), |f: Facets| f.attached_to),
{
    let mut query = w.query::<(hecs::Entity, &AttachedToEntity)>();
    query.iter().map(|(entity, c)| (EntityId(entity.to_bits().get()), c.clone())).collect()
}

/// `World::query::<(Entity, &Damage)>`, walked once: every live entity that
/// carries a `Damage`, with a copy of it. The order is the store's own and
/// nothing is claimed of it.
#[verifier::external_body]
pub(crate) fn list_damage(w: &hecs::World) -> (listing: Vec<(EntityId, Damage)>)
    ensures
        lists(listing@, world_view(*w), |f: Facets| f.damage),
{
    let mut query = w.query::<(hecs::Entity, &Damage)>();
    query.iter().map(|(entity, c)| (EntityId(entity.to_bits().get()), c.clone())).collect()
}

/// `World::query::<(Entity, &SetPtEffect)>`, walked once: every live entity that
/// carries a `SetPtEffect`, with a copy of it. The order is the store's own and
/// nothing is claimed of it.
#[verifier::external_body]
pub(crate) fn list_set_pt(w: &hecs::World) -> (listing: Vec<(EntityId, SetPtEffect)>)
    ensures
        lists(listing@, world_view(*w), |f: Facets| f.set_pt),
{
    let mut query = w.query::<(hecs::Entity, &SetPtEffect)>();
    query.iter().map(|(entity, c)| (EntityId(entity.to_bits().get()), c.clone())).collect()
}

/// `World::query::<(Entity, &AdjustPtEffect)>`, walked once: every live entity that
/// carries a `AdjustPtEffect`, with a copy of it. The order is the store's own and
/// nothing is claimed of it.
#[verifier::external_body]
pub(crate) fn list_adjust_pt(w: &hecs::World) -> (listing: Vec<(EntityId, AdjustPtEffect)>)
    ensures
        lists(listing@, world_view(*w), |f: Facets| f.adjust_pt),
{
    let mut query = w.query::<(hecs::Entity, &AdjustPtEffect)>();
    query.iter().map(|(entity, c)| (EntityId(entity.to_bits().get()), c.clone())).collect()
}

/// `World::query::<(Entity, &SwitchPtEffect)>`, walked once: every live entity that
/// carries a `SwitchPtEffect`, with a copy of it. The order is the store's own and
/// nothing is claimed of it.
#[verifier::external_body]
pub(crate) fn list_switch_pt(w: &hecs::World) -> (listing: Vec<(EntityId, SwitchPtEffect)>)
    ensures
        lists(listing@, world_view(*w), |f: Facets| f.switch_pt),
{
    let mut query = w.query::<(hecs::Entity, &SwitchPtEffect)>();
    query.iter().map(|(entity, c)| (EntityId(entity.to_bits().get()), c.clone())).collect()
}

} // verus!
