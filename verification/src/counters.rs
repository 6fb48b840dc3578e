//! Counters placed on objects and players.

use vstd::prelude::*;
use crate::ident::Ident;
use crate::keyword_ability::KeywordAbility;
use crate::pt::PtValue;

verus! {

/// A marker placed on an object or a player.
#[derive(Clone, Debug)]
pub enum Counter {
    /// Adds to the power and toughness of the object.
    Pt(PtValue),
    /// Gives the object a keyword ability.
    KeywordAbility(KeywordAbility),
    /// Loyalty of a planeswalker.
    Loyalty(i64),
    /// Poison on a player.
    Poison(i64),
    /// A counter that a card names.
    Other(Ident),
}

impl Counter {
    /// What the counter adds to power and toughness: its pair for a `Pt`
    /// counter, nothing for any other.
    pub open spec fn pt_bonus(self) -> PtValue {
        match self {
            Counter::Pt(adjustment) => adjustment,
            _ => PtValue { power: 0, toughness: 0 },
        }
    }
}

} // verus!
