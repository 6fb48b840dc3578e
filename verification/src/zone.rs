//! Zones: the places where objects can be during a game.

use vstd::prelude::*;
use crate::entity::EntityId;
use crate::player::PlayerId;

verus! {

/// The name of a zone. Each player has a library, a hand and a graveyard of
/// their own; the other zones are shared.
#[derive(Clone, Copy, Debug, PartialEq, Eq, Structural, Hash)]
pub enum ZoneId {
    Library(PlayerId),
    Hand(PlayerId),
    Graveyard(PlayerId),
    Stack,
    Battlefield,
    Exile,
    Command,
}

/// `items` without every occurrence of `entity` among its first `upto`
/// items; what stays keeps its order.
pub open spec fn without(items: Seq<EntityId>, entity: EntityId, upto: int) -> Seq<EntityId>
    decreases upto,
{
    if upto <= 0 {
        Seq::empty()
    } else if items[upto - 1] == entity {
        without(items, entity, upto - 1)
    } else {
        without(items, entity, upto - 1).push(items[upto - 1])
    }
}

/// What `without` keeps: exactly the other items, and no item twice where
/// none stood twice before.
pub proof fn lemma_without(items: Seq<EntityId>, entity: EntityId, upto: int)
    requires
        0 <= upto <= items.len(),
    ensures
        forall|x: EntityId| #[trigger]
            without(items, entity, upto).contains(x) <==> (x != entity && items.subrange(
                0,
                upto,
            ).contains(x)),
        items.subrange(0, upto).no_duplicates() ==> without(items, entity, upto).no_duplicates(),
        !items.subrange(0, upto).contains(entity) ==> without(items, entity, upto)
            == items.subrange(0, upto),
    decreases upto,
{
    if upto > 0 {
        lemma_without(items, entity, upto - 1);
        let before = items.subrange(0, upto - 1);
        let now = items.subrange(0, upto);
        let kept_before = without(items, entity, upto - 1);
        let kept = without(items, entity, upto);
        let last = items[upto - 1];
        assert(now == before.push(last));
        assert forall|x: EntityId| #[trigger] kept.contains(x) <==> (x != entity && now.contains(
            x,
        )) by {
            if kept.contains(x) {
                let i = choose|i: int| 0 <= i < kept.len() && kept[i] == x;
                if last != entity && i == kept.len() - 1 {
                    assert(now[upto - 1] == x);
                } else {
                    assert(kept_before[i] == x);
                    assert(kept_before.contains(x));
                    let j = choose|j: int| 0 <= j < before.len() && before[j] == x;
                    assert(now[j] == x);
                }
            }
            if x != entity && now.contains(x) {
                let j = choose|j: int| 0 <= j < now.len() && now[j] == x;
                if j == upto - 1 {
                    assert(kept[kept.len() - 1] == x);
                } else {
                    assert(before[j] == x);
                    assert(before.contains(x));
                    assert(kept_before.contains(x));
                    let i = choose|i: int| 0 <= i < kept_before.len() && kept_before[i] == x;
                    assert(kept[i] == x);
                }
            }
        }
        if now.no_duplicates() {
            assert forall|i: int, j: int| 0 <= i < before.len() && 0 <= j < before.len() && i != j implies before[i] != before[j] by {
                assert(now[i] == before[i] && now[j] == before[j]);
            }
            if last != entity {
                if kept_before.contains(last) {
                    let j = choose|j: int| 0 <= j < before.len() && before[j] == last;
                    assert(before.contains(last));
                    assert(now[j] == now[upto - 1]);
                }
                assert(kept.no_duplicates());
            }
        }
        if !now.contains(entity) {
            assert(now[upto - 1] == last);
            assert forall|j: int| 0 <= j < before.len() implies before[j] != entity by {
                assert(now[j] == before[j]);
            }
            assert(!before.contains(entity));
        }
    } else {
        assert(items.subrange(0, upto) == Seq::<EntityId>::empty());
    }
}

/// A list with one item more holds what it held, and that item.
pub proof fn lemma_pushed(items: Seq<EntityId>, added: EntityId, sought: EntityId)
    ensures
        items.push(added).contains(sought) <==> (items.contains(sought) || sought == added),
{
    let longer = items.push(added);
    if items.contains(sought) {
        let k = choose|k: int| 0 <= k < items.len() && items[k] == sought;
        assert(longer[k] == sought);
    }
    if sought == added {
        assert(longer[items.len() as int] == sought);
    }
    if longer.contains(sought) {
        let k = choose|k: int| 0 <= k < longer.len() && longer[k] == sought;
        if k < items.len() {
            assert(items[k] == sought);
        }
    }
}

/// The items among the first `upto` of `items` that are in `alive`, in
/// their order.
pub open spec fn kept(items: Seq<EntityId>, alive: Set<EntityId>, upto: int) -> Seq<EntityId>
    decreases upto,
{
    if upto <= 0 {
        Seq::empty()
    } else if alive.contains(items[upto - 1]) {
        kept(items, alive, upto - 1).push(items[upto - 1])
    } else {
        kept(items, alive, upto - 1)
    }
}

/// What is kept of the first `upto` items does not depend on the items
/// after them.
pub proof fn lemma_kept_prefix(a: Seq<EntityId>, b: Seq<EntityId>, alive: Set<EntityId>, upto: int)
    requires
        upto <= a.len(),
        upto <= b.len(),
        forall|i: int| 0 <= i < upto ==> a[i] == b[i],
    ensures
        kept(a, alive, upto) == kept(b, alive, upto),
    decreases upto,
{
    if upto > 0 {
        lemma_kept_prefix(a, b, alive, upto - 1);
    }
}

/// Where all of the first `upto` items are in `alive`, all are kept.
pub proof fn lemma_kept_all(items: Seq<EntityId>, alive: Set<EntityId>, upto: int)
    requires
        0 <= upto <= items.len(),
        forall|i: int| 0 <= i < upto ==> alive.contains(#[trigger] items[i]),
    ensures
        kept(items, alive, upto) == items.subrange(0, upto),
    decreases upto,
{
    if upto > 0 {
        lemma_kept_all(items, alive, upto - 1);
        assert(items.subrange(0, upto) == items.subrange(0, upto - 1).push(items[upto - 1]));
    } else {
        assert(items.subrange(0, upto) == Seq::<EntityId>::empty());
    }
}

/// To take one entity out of a list is to keep the others: where `alive`
/// holds every item of the list but `entity`.
pub proof fn lemma_without_is_kept(items: Seq<EntityId>, entity: EntityId, alive: Set<EntityId>, upto: int)
    requires
        0 <= upto <= items.len(),
        !alive.contains(entity),
        forall|i: int| 0 <= i < upto && items[i] != entity ==> alive.contains(#[trigger] items[i]),
    ensures
        without(items, entity, upto) == kept(items, alive, upto),
    decreases upto,
{
    if upto > 0 {
        lemma_without_is_kept(items, entity, alive, upto - 1);
    }
}

/// To keep of what was kept is to keep at once, where the second choice is
/// within the first.
pub proof fn lemma_kept_twice(items: Seq<EntityId>, first: Set<EntityId>, second: Set<EntityId>, upto: int)
    requires
        0 <= upto <= items.len(),
        second.subset_of(first),
    ensures
        kept(kept(items, first, upto), second, kept(items, first, upto).len() as int) == kept(
            items,
            second,
            upto,
        ),
    decreases upto,
{
    if upto > 0 {
        lemma_kept_twice(items, first, second, upto - 1);
        let shorter = kept(items, first, upto - 1);
        let last = items[upto - 1];
        if first.contains(last) {
            let longer = shorter.push(last);
            lemma_kept_prefix(longer, shorter, second, shorter.len() as int);
        }
    }
}

/// What is kept holds exactly the items that were there and are in
/// `alive`, and none twice where none stood twice.
pub proof fn lemma_kept_holds(items: Seq<EntityId>, alive: Set<EntityId>, upto: int)
    requires
        0 <= upto <= items.len(),
    ensures
        forall|x: EntityId| #[trigger]
            kept(items, alive, upto).contains(x) <==> (alive.contains(x) && items.subrange(0, upto).contains(x)),
        items.subrange(0, upto).no_duplicates() ==> kept(items, alive, upto).no_duplicates(),
    decreases upto,
{
    if upto > 0 {
        lemma_kept_holds(items, alive, upto - 1);
        let before = items.subrange(0, upto - 1);
        let now = items.subrange(0, upto);
        let last = items[upto - 1];
        let kept_before = kept(items, alive, upto - 1);
        let kept_now = kept(items, alive, upto);
        assert(now == before.push(last));
        assert forall|x: EntityId| #[trigger] kept_now.contains(x) <==> (alive.contains(x) && now.contains(x)) by {
            lemma_pushed(before, last, x);
            lemma_pushed(kept_before, last, x);
            assert(kept_before.contains(x) <==> (alive.contains(x) && before.contains(x)));
        }
        if now.no_duplicates() {
            assert forall|i: int, j: int| 0 <= i < before.len() && 0 <= j < before.len() && i != j implies before[i] != before[j] by {
                assert(now[i] == before[i] && now[j] == before[j]);
            }
            if alive.contains(last) {
                if kept_before.contains(last) {
                    assert(before.contains(last));
                    let j = choose|j: int| 0 <= j < before.len() && before[j] == last;
                    assert(now[j] == now[upto - 1]);
                }
                assert(kept_now.no_duplicates());
            }
        }
    } else {
        assert(items.subrange(0, upto) == Seq::<EntityId>::empty());
    }
}

/// The members of one zone, in order. In the stack the last member is the
/// top.
#[derive(Debug)]
pub struct Zone {
    pub members: Vec<EntityId>,
}

impl View for Zone {
    type V = Seq<EntityId>;

    open spec fn view(&self) -> Seq<EntityId> {
        self.members@
    }
}

impl Zone {
    /// A zone with no members.
    pub fn new() -> (zone: Self)
        ensures
            zone@ == Seq::<EntityId>::empty(),
    {
        Zone { members: Vec::new() }
    }

    /// Takes every member out.
    pub fn clear(&mut self)
        ensures
            final(self)@ == Seq::<EntityId>::empty(),
    {
        self.members.clear();
    }

    /// Puts `entity` in, as the last member.
    pub fn add(&mut self, entity: EntityId)
        ensures
            final(self)@ == old(self)@.push(entity),
    {
        self.members.push(entity);
    }

    /// Takes `entity` out, wherever it stands; the others keep their order.
    pub fn remove(&mut self, entity: EntityId)
        ensures
            final(self)@ == without(old(self)@, entity, old(self)@.len() as int),
    {
        let mut kept: Vec<EntityId> = Vec::new();
        let mut index: usize = 0;
        while index < self.members.len()
            invariant
                index <= self.members.len(),
                self.members@ == old(self)@,
                kept@ == without(old(self)@, entity, index as int),
            decreases self.members.len() - index,
        {
            if self.members[index] != entity {
                kept.push(self.members[index]);
            }
            index += 1;
        }
        self.members = kept;
    }

    /// Whether the zone has no members.
    pub fn is_empty(&self) -> (empty: bool)
        ensures
            empty == (self@.len() == 0),
    {
        self.members.is_empty()
    }

    /// Whether `entity` is a member.
    pub fn contains(&self, entity: EntityId) -> (found: bool)
        ensures
            found == self@.contains(entity),
    {
        let mut i: usize = 0;
        while i < self.members.len()
            invariant
                i <= self.members.len(),
                forall|j: int| 0 <= j < i ==> self.members@[j] != entity,
            decreases self.members.len() - i,
        {
            if self.members[i] == entity {
                return true;
            }
            i += 1;
        }
        false
    }

    /// The members, in order.
    pub fn members(&self) -> (members: &Vec<EntityId>)
        ensures
            members@ == self@,
    {
        &self.members
    }

    /// Puts the members in a random order.
    pub fn shuffle(&mut self)
        ensures
            final(self)@.to_multiset() == old(self)@.to_multiset(),
    {
        shuffle_entities(&mut self.members);
    }
}

/// `SliceRandom::shuffle` with `rand::thread_rng()`: reorders the items in
/// place. Which order comes out is left open; the items are the same ones,
/// each as often as before.
#[verifier::external_body]
fn shuffle_entities(items: &mut Vec<EntityId>)
    ensures
        final(items)@.to_multiset() == old(items)@.to_multiset(),
{
    rand::seq::SliceRandom::shuffle(items.as_mut_slice(), &mut rand::thread_rng());
}

/// The zones of a game.
#[derive(Debug)]
pub struct Zones {
    pub libraries: Vec<Zone>,
    pub hands: Vec<Zone>,
    pub graveyards: Vec<Zone>,
    pub stack: Zone,
    pub battlefield: Zone,
    pub exile: Zone,
    pub command: Zone,
}

/// `count` empty zones.
fn empty_zones(count: usize) -> (zones: Vec<Zone>)
    ensures
        zones@.len() == count,
        forall|i: int| 0 <= i < count ==> (#[trigger] zones@[i])@ == Seq::<EntityId>::empty(),
{
    let mut zones: Vec<Zone> = Vec::new();
    let mut i: usize = 0;
    while i < count
        invariant
            i <= count,
            zones@.len() == i,
            forall|j: int| 0 <= j < i ==> (#[trigger] zones@[j])@ == Seq::<EntityId>::empty(),
        decreases count - i,
    {
        zones.push(Zone::new());
        i += 1;
    }
    zones
}

impl Zones {
    /// Every player has one library, one hand and one graveyard.
    pub open spec fn wf(&self) -> bool {
        &&& self.hands@.len() == self.libraries@.len()
        &&& self.graveyards@.len() == self.libraries@.len()
    }

    /// The number of players that have zones of their own.
    pub open spec fn num_players(&self) -> int {
        self.libraries@.len() as int
    }

    /// Whether the zone named `id` exists.
    pub open spec fn has(&self, id: ZoneId) -> bool {
        match id {
            ZoneId::Library(player) => (player.0 as int) < self.libraries@.len(),
            ZoneId::Hand(player) => (player.0 as int) < self.hands@.len(),
            ZoneId::Graveyard(player) => (player.0 as int) < self.graveyards@.len(),
            _ => true,
        }
    }

    /// The members of the zone named `id`, in order.
    pub open spec fn members(&self, id: ZoneId) -> Seq<EntityId>
        recommends
            self.has(id),
    {
        match id {
            ZoneId::Library(player) => self.libraries@[player.0 as int]@,
            ZoneId::Hand(player) => self.hands@[player.0 as int]@,
            ZoneId::Graveyard(player) => self.graveyards@[player.0 as int]@,
            ZoneId::Stack => self.stack@,
            ZoneId::Battlefield => self.battlefield@,
            ZoneId::Exile => self.exile@,
            ZoneId::Command => self.command@,
        }
    }

    /// The zones of a game of `num_players` players, all empty.
    pub fn new(num_players: usize) -> (zones: Self)
        ensures
            zones.wf(),
            zones.num_players() == num_players,
            forall|id: ZoneId| zones.has(id) ==> #[trigger] zones.members(id) == Seq::<EntityId>::empty(),
    {
        Zones {
            libraries: empty_zones(num_players),
            hands: empty_zones(num_players),
            graveyards: empty_zones(num_players),
            stack: Zone::new(),
            battlefield: Zone::new(),
            exile: Zone::new(),
            command: Zone::new(),
        }
    }

    /// Whether the zone named `id` exists.
    pub fn contains_zone(&self, id: ZoneId) -> (found: bool)
        ensures
            found == self.has(id),
    {
        match id {
            ZoneId::Library(player) => (player.0 as usize) < self.libraries.len(),
            ZoneId::Hand(player) => (player.0 as usize) < self.hands.len(),
            ZoneId::Graveyard(player) => (player.0 as usize) < self.graveyards.len(),
            _ => true,
        }
    }

    /// The zone named `id`, if it exists.
    pub fn get(&self, id: ZoneId) -> (zone: Option<&Zone>)
        ensures
            zone.is_some() == self.has(id),
            self.has(id) ==> zone.unwrap()@ == self.members(id),
    {
        match id {
            ZoneId::Library(player) => {
                let i: usize = player.0 as usize;
                if i < self.libraries.len() { Some(&self.libraries[i]) } else { None }
            },
            ZoneId::Hand(player) => {
                let i: usize = player.0 as usize;
                if i < self.hands.len() { Some(&self.hands[i]) } else { None }
            },
            ZoneId::Graveyard(player) => {
                let i: usize = player.0 as usize;
                if i < self.graveyards.len() { Some(&self.graveyards[i]) } else { None }
            },
            ZoneId::Stack => Some(&self.stack),
            ZoneId::Battlefield => Some(&self.battlefield),
            ZoneId::Exile => Some(&self.exile),
            ZoneId::Command => Some(&self.command),
        }
    }

    /// The zone named `id`, if it exists, to change. The other zones stay
    /// as they are.
    pub fn get_mut(&mut self, id: ZoneId) -> (zone: Option<&mut Zone>)
        ensures
            zone.is_some() == old(self).has(id),
            !old(self).has(id) ==> *final(self) == *old(self),
            old(self).has(id) ==> {
                &&& zone.unwrap()@ == old(self).members(id)
                &&& final(self).libraries@.len() == old(self).libraries@.len()
                &&& final(self).hands@.len() == old(self).hands@.len()
                &&& final(self).graveyards@.len() == old(self).graveyards@.len()
                &&& final(self).members(id) == final(zone.unwrap())@
                &&& forall|other: ZoneId|
                    old(self).has(other) && other != id ==> #[trigger] final(self).members(other)
                        == old(self).members(other)
            },
    {
        match id {
            ZoneId::Library(player) => {
                let i: usize = player.0 as usize;
                if i < self.libraries.len() { Some(&mut self.libraries[i]) } else { None }
            },
            ZoneId::Hand(player) => {
                let i: usize = player.0 as usize;
                if i < self.hands.len() { Some(&mut self.hands[i]) } else { None }
            },
            ZoneId::Graveyard(player) => {
                let i: usize = player.0 as usize;
                if i < self.graveyards.len() { Some(&mut self.graveyards[i]) } else { None }
            },
            ZoneId::Stack => Some(&mut self.stack),
            ZoneId::Battlefield => Some(&mut self.battlefield),
            ZoneId::Exile => Some(&mut self.exile),
            ZoneId::Command => Some(&mut self.command),
        }
    }
}

/// Empties every zone of `zones`.
fn clear_each(zones: &mut Vec<Zone>)
    ensures
        final(zones)@.len() == old(zones)@.len(),
        forall|i: int| 0 <= i < final(zones)@.len() ==> (#[trigger] final(zones)@[i])@ == Seq::<EntityId>::empty(),
{
    let mut i: usize = 0;
    while i < zones.len()
        invariant
            i <= zones@.len(),
            zones@.len() == old(zones)@.len(),
            forall|j: int| 0 <= j < i ==> (#[trigger] zones@[j])@ == Seq::<EntityId>::empty(),
        decreases zones@.len() - i,
    {
        zones[i].clear();
        i += 1;
    }
}

impl Zones {
    /// Empties every zone.
    pub fn clear_all(&mut self)
        ensures
            final(self).libraries@.len() == old(self).libraries@.len(),
            final(self).hands@.len() == old(self).hands@.len(),
            final(self).graveyards@.len() == old(self).graveyards@.len(),
            forall|id: ZoneId| final(self).has(id) ==> #[trigger] final(self).members(id) == Seq::<EntityId>::empty(),
    {
        clear_each(&mut self.libraries);
        clear_each(&mut self.hands);
        clear_each(&mut self.graveyards);
        self.stack.clear();
        self.battlefield.clear();
        self.exile.clear();
        self.command.clear();
    }
}

/// Whether `after` is `before` with every entity that is not in `alive`
/// taken out of every list, the others in their order.
pub open spec fn zones_pruned(before: Zones, after: Zones, alive: Set<EntityId>) -> bool {
    &&& after.libraries@.len() == before.libraries@.len()
    &&& after.hands@.len() == before.hands@.len()
    &&& after.graveyards@.len() == before.graveyards@.len()
    &&& forall|zone: ZoneId|
        before.has(zone) ==> #[trigger] after.members(zone) == kept(
            before.members(zone),
            alive,
            before.members(zone).len() as int,
        )
}

/// To prune twice is to prune at once, where the second choice is within
/// the first.
pub proof fn lemma_pruned_twice(start: Zones, between: Zones, end: Zones, first: Set<EntityId>, second: Set<EntityId>)
    requires
        zones_pruned(start, between, first),
        zones_pruned(between, end, second),
        second.subset_of(first),
    ensures
        zones_pruned(start, end, second),
{
    assert forall|zone: ZoneId| start.has(zone) implies #[trigger] end.members(zone) == kept(
        start.members(zone),
        second,
        start.members(zone).len() as int,
    ) by {
        assert(between.has(zone));
        assert(between.members(zone) == kept(start.members(zone), first, start.members(zone).len() as int));
        lemma_kept_twice(start.members(zone), first, second, start.members(zone).len() as int);
    }
}

/// Zones whose members are all in `alive` are as they are when pruned.
pub proof fn lemma_pruned_same(zones: Zones, alive: Set<EntityId>)
    requires
        forall|zone: ZoneId, id: EntityId| zones.has(zone) && #[trigger] zones.members(zone).contains(id) ==> alive.contains(id),
    ensures
        zones_pruned(zones, zones, alive),
{
    assert forall|zone: ZoneId| zones.has(zone) implies #[trigger] zones.members(zone) == kept(
        zones.members(zone),
        alive,
        zones.members(zone).len() as int,
    ) by {
        let list = zones.members(zone);
        assert forall|i: int| 0 <= i < list.len() implies alive.contains(#[trigger] list[i]) by {
            assert(list.contains(list[i]));
        }
        lemma_kept_all(list, alive, list.len() as int);
        assert(list.subrange(0, list.len() as int) == list);
    }
}

} // verus!
