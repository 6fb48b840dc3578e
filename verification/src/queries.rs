//! Queries: what is read off the state of a game.

use vstd::prelude::*;
use crate::counters::Counter;
use crate::entity::EntityId;
use crate::game::casting::facets_at;
use crate::game::Game;
use crate::player::PlayerId;
use crate::pt::{AdjustPtEffect, PtValue, SetPtEffect, SwitchPtEffect};
use crate::store::{
    get_counters, get_object, get_permanent, list_adjust_pt, list_object, list_set_pt,
    list_switch_pt, lists, world_contains, Facets,
};
use crate::types::{has_type, CardType};

verus! {

/// A question that a game answers.
pub trait Query {
    type Output;

    /// Whether `answer` is an answer of `game` to this question.
    spec fn answered_by(&self, game: &Game, answer: Self::Output) -> bool;

    /// Answers the question for `game`.
    fn query(&self, game: &Game) -> (answer: Self::Output)
        ensures
            self.answered_by(game, answer),
    ;
}

impl Game {
    /// Answers `query_object` for this game.
    pub fn query<Q: Query>(&self, query_object: Q) -> (answer: Q::Output)
        ensures
            query_object.answered_by(self, answer),
    {
        query_object.query(self)
    }
}

/// `pt` after the first `upto` of the effects `sets` that set power and
/// toughness: the value of the last of them that is aimed at `target`.
pub open spec fn after_sets(pt: PtValue, sets: Seq<(EntityId, SetPtEffect)>, target: EntityId, upto: int) -> PtValue
    decreases upto,
{
    if upto <= 0 {
        pt
    } else if sets[upto - 1].1.target == target {
        sets[upto - 1].1.value
    } else {
        after_sets(pt, sets, target, upto - 1)
    }
}

/// `pt` after `step` has been made with each of the first `upto` of
/// `effects`, in their order.
pub open spec fn applied<E>(pt: PtValue, effects: Seq<(EntityId, E)>, step: spec_fn(PtValue, E) -> PtValue, upto: int) -> PtValue
    decreases upto,
{
    if upto <= 0 {
        pt
    } else {
        step(applied(pt, effects, step, upto - 1), effects[upto - 1].1)
    }
}

/// What one effect that adds to power and toughness makes of `pt`, seen
/// from `target`: the sum where the effect is aimed at `target`.
pub open spec fn adjust_step(target: EntityId) -> spec_fn(PtValue, AdjustPtEffect) -> PtValue {
    |pt: PtValue, effect: AdjustPtEffect|
        if effect.target == target {
            pt.plus(effect.adjustment)
        } else {
            pt
        }
}

/// What one effect that exchanges power and toughness makes of `pt`, seen
/// from `target`: the pair exchanged where the effect is aimed at `target`.
pub open spec fn switch_step(target: EntityId) -> spec_fn(PtValue, SwitchPtEffect) -> PtValue {
    |pt: PtValue, effect: SwitchPtEffect|
        if effect.target == target {
            pt.switched()
        } else {
            pt
        }
}

/// `pt` after the first `upto` of the effects `adjusts` that add to power
/// and toughness: each that is aimed at `target` added.
pub open spec fn after_adjusts(pt: PtValue, adjusts: Seq<(EntityId, AdjustPtEffect)>, target: EntityId, upto: int) -> PtValue {
    applied(pt, adjusts, adjust_step(target), upto)
}

/// `pt` after the first `upto` of `counters`: each counter on power and
/// toughness added.
pub open spec fn after_counters(pt: PtValue, counters: Seq<Counter>, upto: int) -> PtValue
    decreases upto,
{
    if upto <= 0 {
        pt
    } else {
        after_counters(pt, counters, upto - 1).plus(counters[upto - 1].pt_bonus())
    }
}

/// `pt` after the first `upto` of the effects `switches` that exchange
/// power and toughness: exchanged once for each that is aimed at `target`.
pub open spec fn after_switches(pt: PtValue, switches: Seq<(EntityId, SwitchPtEffect)>, target: EntityId, upto: int) -> PtValue {
    applied(pt, switches, switch_step(target), upto)
}

/// Whether no entity has two entries in `a`.
pub open spec fn one_each<E>(a: Seq<(EntityId, E)>) -> bool {
    forall|i: int, j: int| 0 <= i < j < a.len() ==> (#[trigger] a[i]).0 != (#[trigger] a[j]).0
}

/// Whether `a` and `b` hold the same entries, each entity once.
pub open spec fn same_entries<E>(a: Seq<(EntityId, E)>, b: Seq<(EntityId, E)>) -> bool {
    &&& one_each(a)
    &&& one_each(b)
    &&& forall|i: int| 0 <= i < a.len() ==> b.contains(#[trigger] a[i])
    &&& forall|j: int| 0 <= j < b.len() ==> a.contains(#[trigger] b[j])
}

/// Where two lists hold the same entries, they still do once the last
/// entry of the one is taken out of both.
pub proof fn lemma_entries_shrink<E>(a: Seq<(EntityId, E)>, b: Seq<(EntityId, E)>, at: int)
    requires
        same_entries(a, b),
        a.len() > 0,
        0 <= at < b.len(),
        b[at] == a.last(),
    ensures
        same_entries(a.drop_last(), b.remove(at)),
{
    let n = a.len() as int;
    let shorter = a.drop_last();
    let rest = b.remove(at);
    assert forall|i: int| 0 <= i < shorter.len() implies rest.contains(#[trigger] shorter[i]) by {
        assert(b.contains(a[i]));
        let j = choose|j: int| 0 <= j < b.len() && b[j] == a[i];
        assert(a[i].0 != a[n - 1].0);
        if j < at {
            assert(rest[j] == shorter[i]);
        } else {
            assert(rest[j - 1] == shorter[i]);
        }
    }
    assert forall|j: int| 0 <= j < rest.len() implies shorter.contains(#[trigger] rest[j]) by {
        let from = if j < at { j } else { j + 1 };
        assert(rest[j] == b[from]);
        assert(a.contains(b[from]));
        let i = choose|i: int| 0 <= i < a.len() && a[i] == b[from];
        if i == n - 1 {
            if from < at {
                assert(b[from].0 != b[at].0);
            } else {
                assert(b[at].0 != b[from].0);
            }
        }
        assert(shorter[i] == rest[j]);
    }
    assert forall|i: int, j: int| 0 <= i < j < rest.len() implies (#[trigger] rest[i]).0 != (#[trigger] rest[j]).0 by {
        let from_i = if i < at { i } else { i + 1 };
        let from_j = if j < at { j } else { j + 1 };
        assert(rest[i] == b[from_i] && rest[j] == b[from_j]);
        assert(b[from_i].0 != b[from_j].0);
    }
    assert forall|i: int, j: int| 0 <= i < j < shorter.len() implies (#[trigger] shorter[i]).0 != (#[trigger] shorter[j]).0 by {
        assert(a[i].0 != a[j].0);
    }
}

/// Whether the order of two steps does not matter.
pub open spec fn commutes<E>(step: spec_fn(PtValue, E) -> PtValue) -> bool {
    forall|pt: PtValue, first: E, second: E| #[trigger] step(step(pt, first), second) == step(step(pt, second), first)
}

/// What is made of the first `upto` effects does not depend on the effects
/// after them.
pub proof fn lemma_applied_prefix<E>(pt: PtValue, a: Seq<(EntityId, E)>, b: Seq<(EntityId, E)>, step: spec_fn(PtValue, E) -> PtValue, upto: int)
    requires
        upto <= a.len(),
        upto <= b.len(),
        forall|i: int| 0 <= i < upto ==> a[i] == b[i],
    ensures
        applied(pt, a, step, upto) == applied(pt, b, step, upto),
    decreases upto,
{
    if upto > 0 {
        lemma_applied_prefix(pt, a, b, step, upto - 1);
    }
}

/// Where the order of two steps does not matter, an effect may as well be
/// taken out of its place and applied last.
pub proof fn lemma_applied_remove<E>(pt: PtValue, effects: Seq<(EntityId, E)>, step: spec_fn(PtValue, E) -> PtValue, at: int)
    requires
        0 <= at < effects.len(),
        commutes(step),
    ensures
        applied(pt, effects, step, effects.len() as int) == step(
            applied(pt, effects.remove(at), step, effects.len() - 1),
            effects[at].1,
        ),
    decreases effects.len(),
{
    let n = effects.len() as int;
    let rest = effects.remove(at);
    if at == n - 1 {
        lemma_applied_prefix(pt, effects, rest, step, n - 1);
    } else {
        let shorter = effects.drop_last();
        lemma_applied_remove(pt, shorter, step, at);
        lemma_applied_prefix(pt, effects, shorter, step, n - 1);
        assert(shorter[at] == effects[at]);
        let both = shorter.remove(at);
        assert(both.len() == n - 2);
        assert forall|i: int| 0 <= i < n - 2 implies both[i] == rest[i] by {}
        lemma_applied_prefix(pt, both, rest, step, n - 2);
        assert(rest[n - 2] == effects[n - 1]);
        let inner = applied(pt, rest, step, n - 2);
        assert(applied(pt, rest, step, n - 1) == step(inner, effects[n - 1].1));
        assert(applied(pt, shorter, step, n - 1) == step(inner, effects[at].1));
        assert(step(step(inner, effects[at].1), effects[n - 1].1) == step(step(inner, effects[n - 1].1), effects[at].1));
    }
}

/// Where the order of two steps does not matter, neither does the order
/// of the effects.
pub proof fn lemma_applied_any_order<E>(pt: PtValue, a: Seq<(EntityId, E)>, b: Seq<(EntityId, E)>, step: spec_fn(PtValue, E) -> PtValue)
    requires
        same_entries(a, b),
        commutes(step),
    ensures
        a.len() == b.len(),
        applied(pt, a, step, a.len() as int) == applied(pt, b, step, b.len() as int),
    decreases a.len(),
{
    if a.len() == 0 {
        if b.len() > 0 {
            assert(a.contains(b[0]));
        }
    } else {
        let n = a.len() as int;
        assert(b.contains(a[n - 1]));
        let at = choose|j: int| 0 <= j < b.len() && b[j] == a[n - 1];
        lemma_entries_shrink(a, b, at);
        lemma_applied_any_order(pt, a.drop_last(), b.remove(at), step);
        lemma_applied_remove(pt, b, step, at);
        lemma_applied_prefix(pt, a, a.drop_last(), step, n - 1);
    }
}

/// Two listings of one store hold the same entries.
pub proof fn lemma_listings_agree<E>(a: Seq<(EntityId, E)>, b: Seq<(EntityId, E)>, view: Map<EntityId, Facets>, pick: spec_fn(Facets) -> Option<E>)
    requires
        lists(a, view, pick),
        lists(b, view, pick),
    ensures
        same_entries(a, b),
{
    assert forall|i: int| 0 <= i < a.len() implies b.contains(#[trigger] a[i]) by {
        assert(view.dom().contains(a[i].0));
        let j = choose|j: int| 0 <= j < b.len() && (#[trigger] b[j]).0 == a[i].0;
        assert(b[j] == a[i]);
    }
    assert forall|j: int| 0 <= j < b.len() implies a.contains(#[trigger] b[j]) by {
        assert(view.dom().contains(b[j].0));
        let i = choose|i: int| 0 <= i < a.len() && (#[trigger] a[i]).0 == b[j].0;
        assert(a[i] == b[j]);
    }
}

/// The effects that add to power and toughness, and those that exchange
/// them, come to the same in whatever order the store lists them: addition
/// that wraps round does not depend on the order of the summands, and an
/// exchange commutes with an exchange.
pub proof fn lemma_layers_in_any_order(
    view: Map<EntityId, Facets>,
    adjusts: Seq<(EntityId, AdjustPtEffect)>,
    other_adjusts: Seq<(EntityId, AdjustPtEffect)>,
    switches: Seq<(EntityId, SwitchPtEffect)>,
    other_switches: Seq<(EntityId, SwitchPtEffect)>,
    pt: PtValue,
    target: EntityId,
)
    requires
        lists(adjusts, view, |f: Facets| f.adjust_pt),
        lists(other_adjusts, view, |f: Facets| f.adjust_pt),
        lists(switches, view, |f: Facets| f.switch_pt),
        lists(other_switches, view, |f: Facets| f.switch_pt),
    ensures
        after_adjusts(pt, adjusts, target, adjusts.len() as int) == after_adjusts(
            pt,
            other_adjusts,
            target,
            other_adjusts.len() as int,
        ),
        after_switches(pt, switches, target, switches.len() as int) == after_switches(
            pt,
            other_switches,
            target,
            other_switches.len() as int,
        ),
{
    lemma_listings_agree(adjusts, other_adjusts, view, |f: Facets| f.adjust_pt);
    lemma_listings_agree(switches, other_switches, view, |f: Facets| f.switch_pt);
    assert(commutes(adjust_step(target))) by {
        assert forall|p: PtValue, first: AdjustPtEffect, second: AdjustPtEffect| #[trigger]
            adjust_step(target)(adjust_step(target)(p, first), second) == adjust_step(target)(
                adjust_step(target)(p, second),
                first,
            ) by {
            lemma_plus_commutes(p, first.adjustment, second.adjustment);
        }
    }
    assert(commutes(switch_step(target)));
    lemma_applied_any_order(pt, adjusts, other_adjusts, adjust_step(target));
    lemma_applied_any_order(pt, switches, other_switches, switch_step(target));
}

/// The power and toughness that the layers give does not depend on the
/// order in which the store lists the effects that add and those that
/// exchange: only among several effects that set the value does the order
/// decide.
pub proof fn lemma_pt_settled_by_sets(
    view: Map<EntityId, Facets>,
    base: PtValue,
    sets: Seq<(EntityId, SetPtEffect)>,
    adjusts: Seq<(EntityId, AdjustPtEffect)>,
    other_adjusts: Seq<(EntityId, AdjustPtEffect)>,
    counters: Seq<Counter>,
    switches: Seq<(EntityId, SwitchPtEffect)>,
    other_switches: Seq<(EntityId, SwitchPtEffect)>,
    target: EntityId,
)
    requires
        lists(adjusts, view, |f: Facets| f.adjust_pt),
        lists(other_adjusts, view, |f: Facets| f.adjust_pt),
        lists(switches, view, |f: Facets| f.switch_pt),
        lists(other_switches, view, |f: Facets| f.switch_pt),
    ensures
        layered_pt(base, sets, adjusts, counters, switches, target) == layered_pt(
            base,
            sets,
            other_adjusts,
            counters,
            other_switches,
            target,
        ),
{
    let set = after_sets(base, sets, target, sets.len() as int);
    lemma_layers_in_any_order(view, adjusts, other_adjusts, switches, other_switches, set, target);
    let adjusted = after_adjusts(set, adjusts, target, adjusts.len() as int);
    let counted = after_counters(adjusted, counters, counters.len() as int);
    lemma_layers_in_any_order(view, adjusts, other_adjusts, switches, other_switches, counted, target);
}

/// Adding two pairs to a third comes to the same in either order.
pub proof fn lemma_plus_commutes(pt: PtValue, first: PtValue, second: PtValue)
    ensures
        pt.plus(first).plus(second) == pt.plus(second).plus(first),
{
}

/// The power and toughness of `target` with base value `base`, under the
/// given effects and counters, layer by layer: the effects that set, then
/// those that add, then the counters, then the effects that exchange.
pub open spec fn layered_pt(
    base: PtValue,
    sets: Seq<(EntityId, SetPtEffect)>,
    adjusts: Seq<(EntityId, AdjustPtEffect)>,
    counters: Seq<Counter>,
    switches: Seq<(EntityId, SwitchPtEffect)>,
    target: EntityId,
) -> PtValue {
    let set = after_sets(base, sets, target, sets.len() as int);
    let adjusted = after_adjusts(set, adjusts, target, adjusts.len() as int);
    let counted = after_counters(adjusted, counters, counters.len() as int);
    after_switches(counted, switches, target, switches.len() as int)
}

/// Computes the power and toughness of `target` from its base value and
/// the effects and counters at work, layer by layer.
pub fn resolve_pt(
    base: PtValue,
    sets: &Vec<(EntityId, SetPtEffect)>,
    adjusts: &Vec<(EntityId, AdjustPtEffect)>,
    counters: &Vec<Counter>,
    switches: &Vec<(EntityId, SwitchPtEffect)>,
    target: EntityId,
) -> (pt: PtValue)
    ensures
        pt == layered_pt(base, sets@, adjusts@, counters@, switches@, target),
{
    let mut calculated_pt = base;
    let mut i: usize = 0;
    while i < sets.len()
        invariant
            i <= sets.len(),
            calculated_pt == after_sets(base, sets@, target, i as int),
        decreases sets.len() - i,
    {
        if sets[i].1.target == target {
            calculated_pt = sets[i].1.value;
        }
        i += 1;
    }
    let ghost set = calculated_pt;
    let mut i: usize = 0;
    while i < adjusts.len()
        invariant
            i <= adjusts.len(),
            calculated_pt == after_adjusts(set, adjusts@, target, i as int),
        decreases adjusts.len() - i,
    {
        if adjusts[i].1.target == target {
            calculated_pt.power = calculated_pt.power.wrapping_add(adjusts[i].1.adjustment.power);
            calculated_pt.toughness = calculated_pt.toughness.wrapping_add(adjusts[i].1.adjustment.toughness);
        }
        i += 1;
    }
    let ghost adjusted = calculated_pt;
    let mut i: usize = 0;
    while i < counters.len()
        invariant
            i <= counters.len(),
            calculated_pt == after_counters(adjusted, counters@, i as int),
        decreases counters.len() - i,
    {
        match &counters[i] {
            Counter::Pt(adjustment) => {
                calculated_pt.power = calculated_pt.power.wrapping_add(adjustment.power);
                calculated_pt.toughness = calculated_pt.toughness.wrapping_add(adjustment.toughness);
            },
            _ => {
                assert(calculated_pt.plus(counters@[i as int].pt_bonus()) == calculated_pt);
            },
        }
        i += 1;
    }
    let ghost counted = calculated_pt;
    let mut i: usize = 0;
    while i < switches.len()
        invariant
            i <= switches.len(),
            calculated_pt == after_switches(counted, switches@, target, i as int),
        decreases switches.len() - i,
    {
        if switches[i].1.target == target {
            let power = calculated_pt.power;
            calculated_pt.power = calculated_pt.toughness;
            calculated_pt.toughness = power;
        }
        i += 1;
    }
    calculated_pt
}

/// Whether `sets`, `adjusts` and `switches` list the effects of `view` on
/// power and toughness, each kind in some order.
pub open spec fn effects_listed(
    view: Map<EntityId, Facets>,
    sets: Seq<(EntityId, SetPtEffect)>,
    adjusts: Seq<(EntityId, AdjustPtEffect)>,
    switches: Seq<(EntityId, SwitchPtEffect)>,
) -> bool {
    &&& lists(sets, view, |f: Facets| f.set_pt)
    &&& lists(adjusts, view, |f: Facets| f.adjust_pt)
    &&& lists(switches, view, |f: Facets| f.switch_pt)
}

/// The power and toughness of an entity; none unless it is a permanent
/// with a power and toughness of its own.
pub struct QueryPt(pub EntityId);

impl Query for QueryPt {
    type Output = Option<PtValue>;

    /// The answer is none where the entity is not alive, is no permanent,
    /// is no object or has no power and toughness of its own. Otherwise it
    /// is `layered_pt` of the base value under the effects of the store and
    /// the object's counters. The store lists its effects in an order of
    /// its own: where several effects set the value, which of them is the
    /// last is left open.
    open spec fn answered_by(&self, game: &Game, answer: Option<PtValue>) -> bool {
        let facets = facets_at(game.view(), self.0);
        if facets.permanent.is_none() || facets.object.is_none() || facets.object.unwrap().pt.is_none() {
            answer.is_none()
        } else {
            let counters = match facets.counters {
                Some(counters) => counters.counters@,
                None => Seq::empty(),
            };
            &&& answer.is_some()
            &&& exists|
                sets: Seq<(EntityId, SetPtEffect)>,
                adjusts: Seq<(EntityId, AdjustPtEffect)>,
                switches: Seq<(EntityId, SwitchPtEffect)>,
            |
                {
                    &&& #[trigger] effects_listed(game.view(), sets, adjusts, switches)
                    &&& answer.unwrap() == layered_pt(
                        facets.object.unwrap().pt.unwrap().value(),
                        sets,
                        adjusts,
                        counters,
                        switches,
                        self.0,
                    )
                }
        }
    }

    fn query(&self, game: &Game) -> (answer: Option<PtValue>) {
        if !world_contains(&game.world, self.0) {
            return None;
        }
        if get_permanent(&game.world, self.0).is_none() {
            return None;
        }
        let object = match get_object(&game.world, self.0) {
            Some(object) => object,
            None => {
                return None;
            },
        };
        let base = match object.pt {
            Some(pt) => pt.resolve(),
            None => {
                return None;
            },
        };
        let counters = match get_counters(&game.world, self.0) {
            Some(counters) => counters.counters,
            None => Vec::new(),
        };
        let sets = list_set_pt(&game.world);
        let adjusts = list_adjust_pt(&game.world);
        let switches = list_switch_pt(&game.world);
        let pt = resolve_pt(base, &sets, &adjusts, &counters, &switches, self.0);
        proof {
            assert(effects_listed(game.view(), sets@, adjusts@, switches@));
        }
        Some(pt)
    }
}

/// The most cards a player may hold at the end of their turn.
pub struct QueryMaxHandSize(pub PlayerId);

impl Query for QueryMaxHandSize {
    type Output = i64;

    /// The answer is seven for every player.
    open spec fn answered_by(&self, game: &Game, answer: i64) -> bool {
        answer == 7
    }

    fn query(&self, game: &Game) -> (answer: i64) {
        7
    }
}

/// The creatures on the battlefield.
#[derive(Debug)]
pub struct QueryCreatures;

/// Whether `id` is a creature permanent of `view`.
pub open spec fn is_creature_permanent(view: Map<EntityId, Facets>, id: EntityId) -> bool {
    &&& view.dom().contains(id)
    &&& view[id].permanent.is_some()
    &&& view[id].object.is_some()
    &&& view[id].object.unwrap().types@.contains(CardType::Creature)
}

impl Query for QueryCreatures {
    type Output = Vec<EntityId>;

    /// The answer names every creature permanent once and nothing else;
    /// the order is the store's own.
    open spec fn answered_by(&self, game: &Game, answer: Vec<EntityId>) -> bool {
        &&& answer@.no_duplicates()
        &&& forall|id: EntityId| #[trigger] answer@.contains(id) <==> is_creature_permanent(game.view(), id)
    }

    fn query(&self, game: &Game) -> (answer: Vec<EntityId>) {
        let objects = list_object(&game.world);
        let mut output: Vec<EntityId> = Vec::new();
        let mut i: usize = 0;
        while i < objects.len()
            invariant
                i <= objects.len(),
                lists(objects@, game.view(), |f: Facets| f.object),
                output@.no_duplicates(),
                forall|id: EntityId| #[trigger]
                    output@.contains(id) <==> (is_creature_permanent(game.view(), id) && exists|j: int|
                        0 <= j < i && (#[trigger] objects@[j]).0 == id),
            decreases objects.len() - i,
        {
            let entity = objects[i].0;
            if get_permanent(&game.world, entity).is_some() && has_type(&objects[i].1.types, CardType::Creature) {
                let ghost earlier = output@;
                output.push(entity);
                proof {
                    assert(!earlier.contains(entity)) by {
                        if earlier.contains(entity) {
                            let j = choose|j: int| 0 <= j < i && (#[trigger] objects@[j]).0 == entity;
                            assert(objects@[j].0 != objects@[i as int].0);
                        }
                    }
                    assert forall|id: EntityId| #[trigger] output@.contains(id) <==> (is_creature_permanent(game.view(), id) && exists|j: int|
                        0 <= j < i + 1 && (#[trigger] objects@[j]).0 == id) by {
                        if output@.contains(id) {
                            let k = choose|k: int| 0 <= k < output@.len() && output@[k] == id;
                            if k < earlier.len() {
                                assert(earlier[k] == id);
                                assert(earlier.contains(id));
                                let j = choose|j: int| 0 <= j < i && (#[trigger] objects@[j]).0 == id;
                                assert(objects@[j].0 == id);
                            } else {
                                assert(objects@[i as int].0 == id);
                            }
                        }
                        if is_creature_permanent(game.view(), id) && exists|j: int| 0 <= j < i + 1 && (#[trigger] objects@[j]).0 == id {
                            let j = choose|j: int| 0 <= j < i + 1 && (#[trigger] objects@[j]).0 == id;
                            if j < i {
                                assert(earlier.contains(id));
                                let k = choose|k: int| 0 <= k < earlier.len() && earlier[k] == id;
                                assert(output@[k] == id);
                            } else {
                                assert(output@[earlier.len() as int] == id);
                            }
                        }
                    }
                }
            } else {
                proof {
                    assert forall|id: EntityId| #[trigger] output@.contains(id) <==> (is_creature_permanent(game.view(), id) && exists|j: int|
                        0 <= j < i + 1 && (#[trigger] objects@[j]).0 == id) by {
                        if output@.contains(id) {
                            let j = choose|j: int| 0 <= j < i && (#[trigger] objects@[j]).0 == id;
                            assert(objects@[j].0 == id);
                        }
                        if is_creature_permanent(game.view(), id) && exists|j: int| 0 <= j < i + 1 && (#[trigger] objects@[j]).0 == id {
                            let j = choose|j: int| 0 <= j < i + 1 && (#[trigger] objects@[j]).0 == id;
                            if j == i {
                                assert(objects@[i as int].0 == id);
                                assert(false);
                            }
                        }
                    }
                }
            }
            i += 1;
        }
        proof {
            assert forall|id: EntityId| #[trigger] output@.contains(id) <==> is_creature_permanent(game.view(), id) by {
                if is_creature_permanent(game.view(), id) {
                    assert(game.view().dom().contains(id));
                    let j = choose|j: int| 0 <= j < objects@.len() && (#[trigger] objects@[j]).0 == id;
                    assert(objects@[j].0 == id);
                }
            }
        }
        output
    }
}

} // verus!
