//! The catalog of cards that can be brought into a game.

use vstd::prelude::*;
use crate::card::CardDescriptor;

verus! {

/// The place of a card in the catalog.
#[derive(Clone, Copy, Debug, PartialEq, Eq, Structural, Hash)]
pub struct CardId(pub u32);

/// The catalog: its cards, each found by its place or by its name.
#[derive(Debug)]
pub struct ObjectDb {
    pub cards: Vec<CardDescriptor>,
}

impl ObjectDb {
    /// The catalog of `cards`, each at the place it has in the vector.
    pub fn new(cards: Vec<CardDescriptor>) -> (db: Self)
        ensures
            db.cards == cards,
    {
        ObjectDb { cards }
    }

    /// The place of the last card named `name`, if one is and its place
    /// fits a `CardId`.
    pub open spec fn place_of(&self, name: Seq<char>) -> Option<CardId> {
        if exists|i: int| self.names(name, i) {
            let last = choose|i: int| self.names(name, i) && forall|j: int| i < j ==> !self.names(name, j);
            Some(CardId(last as u32))
        } else {
            None
        }
    }

    /// Whether place `i` can be named by a `CardId` and holds a card named
    /// `name`.
    pub open spec fn names(&self, name: Seq<char>, i: int) -> bool {
        0 <= i < self.cards@.len() && i <= u32::MAX && self.cards@[i].name@ == name
    }

    /// The id of the card named `name`. Where several cards share the name,
    /// the last of them is meant.
    pub fn card_id(&self, name: &str) -> (id: Option<CardId>)
        ensures
            id == self.place_of(name@),
            id matches Some(found) ==> self.names(name@, found.0 as int),
    {
        let mut found: Option<CardId> = None;
        let mut i: usize = 0;
        while i < self.cards.len() && i <= 0xffff_ffff
            invariant
                i <= self.cards.len(),
                found.is_none() ==> forall|j: int| 0 <= j < i ==> !self.names(name@, j),
                found matches Some(id) ==> {
                    &&& (id.0 as int) < i
                    &&& self.names(name@, id.0 as int)
                    &&& forall|j: int| id.0 < j < i ==> !self.names(name@, j)
                },
            decreases self.cards.len() - i,
        {
            if self.cards[i].name.is(name) {
                found = Some(CardId(i as u32));
            }
            i += 1;
        }
        proof {
            assert forall|j: int| i <= j implies !self.names(name@, j) by {}
            if let Some(id) = found {
                let at = id.0 as int;
                assert(self.names(name@, at) && forall|j: int| at < j ==> !self.names(name@, j));
                let last = choose|i: int| self.names(name@, i) && forall|j: int| i < j ==> !self.names(name@, j);
                assert(last == at);
            }
        }
        found
    }

    /// The card at the place that `id` names, if there is one.
    pub fn card(&self, id: CardId) -> (card: Option<&CardDescriptor>)
        ensures
            card == (if (id.0 as int) < self.cards@.len() {
                Some(&self.cards@[id.0 as int])
            } else {
                None
            }),
    {
        let index: usize = id.0 as usize;
        if index < self.cards.len() {
            Some(&self.cards[index])
        } else {
            None
        }
    }

    /// The card named `name`, if there is one.
    pub fn card_by_name(&self, name: &str) -> (card: Option<&CardDescriptor>)
        ensures
            card == (match self.place_of(name@) {
                Some(id) => Some(&self.cards@[id.0 as int]),
                None => None,
            }),
    {
        match self.card_id(name) {
            Some(id) => self.card(id),
            None => None,
        }
    }
}

} // verus!
