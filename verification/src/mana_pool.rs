//! A player's mana pool.

use vstd::prelude::*;
use crate::cost::ManaColor;

verus! {

/// One unit of mana.
#[derive(Clone, Copy, Debug, PartialEq, Eq, Structural)]
pub struct Mana {
    pub color: ManaColor,
}

/// The handle of a unit of mana in a pool: the place that the unit was
/// given when it was added. A unit keeps its handle for as long as it is in
/// the pool, whatever becomes of the other units.
#[derive(Clone, Copy, Debug, PartialEq, Eq, Structural, Hash)]
pub struct ManaId(pub u32);

/// The units of mana a player has: a row of places, one for each unit that
/// was added since the pool was last emptied, each holding its unit until
/// the unit is spent.
#[derive(Debug)]
pub struct ManaPool {
    pub manas: Vec<Option<Mana>>,
}

impl View for ManaPool {
    type V = Seq<Option<Mana>>;

    open spec fn view(&self) -> Seq<Option<Mana>> {
        self.manas@
    }
}

/// The unit that `id` names in `pool`: none where `id` names no place of
/// the pool, or a place whose unit is spent.
pub open spec fn unit_at(pool: Seq<Option<Mana>>, id: ManaId) -> Option<Mana> {
    if (id.0 as int) < pool.len() {
        pool[id.0 as int]
    } else {
        None
    }
}

/// `pool` once the units named in `spent` are taken out: their places are
/// empty, and every other place is as it was.
pub open spec fn unspent(pool: Seq<Option<Mana>>, spent: Seq<ManaId>) -> Seq<Option<Mana>> {
    Seq::new(
        pool.len(),
        |place: int|
            if place <= u32::MAX && spent.contains(ManaId(place as u32)) {
                None
            } else {
                pool[place]
            },
    )
}

/// The units among the first `upto` places of `pool`, each with its
/// handle, in the order of the places. A place beyond the reach of a
/// handle is passed over.
pub open spec fn units(pool: Seq<Option<Mana>>, upto: int) -> Seq<(ManaId, Mana)>
    decreases upto,
{
    if upto <= 0 {
        Seq::empty()
    } else if upto - 1 <= u32::MAX && pool[upto - 1].is_some() {
        units(pool, upto - 1).push((ManaId((upto - 1) as u32), pool[upto - 1].unwrap()))
    } else {
        units(pool, upto - 1)
    }
}

/// Whether `wanted` is one of `ids`.
pub fn holds_mana_id(ids: &Vec<ManaId>, wanted: ManaId) -> (found: bool)
    ensures
        found == ids@.contains(wanted),
{
    let mut i: usize = 0;
    while i < ids.len()
        invariant
            i <= ids.len(),
            forall|j: int| 0 <= j < i ==> ids@[j] != wanted,
        decreases ids.len() - i,
    {
        if ids[i] == wanted {
            return true;
        }
        i += 1;
    }
    false
}

impl ManaPool {
    /// An empty pool.
    pub fn new() -> (pool: Self)
        ensures
            pool@ == Seq::<Option<Mana>>::empty(),
    {
        ManaPool { manas: Vec::new() }
    }

    /// Adds one unit to the pool, at a new place after all others.
    pub fn add(&mut self, mana: Mana)
        ensures
            final(self)@ == old(self)@.push(Some(mana)),
    {
        self.manas.push(Some(mana));
    }

    /// The unit with the handle `id`, if the pool has one.
    pub fn get(&self, id: ManaId) -> (mana: Option<Mana>)
        ensures
            mana == unit_at(self@, id),
    {
        let index: usize = id.0 as usize;
        if index < self.manas.len() {
            self.manas[index]
        } else {
            None
        }
    }

    /// Empties the pool: no place is left, and handles are given out anew.
    pub fn clear(&mut self)
        ensures
            final(self)@ == Seq::<Option<Mana>>::empty(),
    {
        self.manas.clear();
    }

    /// Whether the pool holds no mana.
    pub fn is_empty(&self) -> (empty: bool)
        ensures
            empty == (forall|place: int| 0 <= place < self@.len() ==> self@[place].is_none()),
    {
        let mut index: usize = 0;
        while index < self.manas.len()
            invariant
                index <= self.manas.len(),
                forall|place: int| 0 <= place < index ==> self@[place].is_none(),
            decreases self.manas.len() - index,
        {
            if self.manas[index].is_some() {
                return false;
            }
            index += 1;
        }
        true
    }

    /// Takes the units named in `manas` out of the pool. Every other unit
    /// keeps its handle; a handle that names no unit is passed over.
    pub fn spend(&mut self, manas: &Vec<ManaId>)
        ensures
            final(self)@ == unspent(old(self)@, manas@),
    {
        let mut index: usize = 0;
        while index < self.manas.len()
            invariant
                index <= self.manas.len(),
                self.manas@.len() == old(self)@.len(),
                forall|place: int| 0 <= place < index ==> self.manas@[place] == unspent(old(self)@, manas@)[place],
                forall|place: int| index <= place < self.manas@.len() ==> self.manas@[place] == old(self)@[place],
            decreases self.manas.len() - index,
        {
            if index <= 0xffff_ffff && holds_mana_id(manas, ManaId(index as u32)) {
                self.manas[index] = None;
            }
            index += 1;
        }
        assert(self.manas@ =~= unspent(old(self)@, manas@));
    }

    /// Every unit of the pool with its handle, in the order of the places.
    pub fn iter(&self) -> (out: Vec<(ManaId, Mana)>)
        ensures
            out@ == units(self@, self@.len() as int),
    {
        let mut out: Vec<(ManaId, Mana)> = Vec::new();
        let mut index: usize = 0;
        while index < self.manas.len()
            invariant
                index <= self.manas.len(),
                out@ == units(self@, index as int),
            decreases self.manas.len() - index,
        {
            if index <= 0xffff_ffff {
                match self.manas[index] {
                    Some(mana) => {
                        out.push((ManaId(index as u32), mana));
                    },
                    None => {},
                }
            }
            index += 1;
        }
        out
    }
}

} // verus!
