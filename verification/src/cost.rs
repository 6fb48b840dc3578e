//! Costs: what has to be paid to take an action.

use vstd::prelude::*;
use crate::mana_pool::Mana;

verus! {

/// The five colors of mana.
#[derive(Clone, Copy, Debug, PartialEq, Eq, Structural)]
pub enum ManaColor {
    White,
    Blue,
    Black,
    Red,
    Green,
}

/// One item of a cost.
#[derive(Clone, Copy, Debug, PartialEq, Eq, Structural)]
pub enum CostItem {
    /// Tapping the permanent; no mana pays for it.
    Tap,
    /// One mana of the given color.
    ColoredMana(ManaColor),
    /// One mana of any type.
    GenericMana,
    /// One mana of any type, for a variable cost.
    XGenericMana,
    /// One colorless mana. Mana in a pool always has a color, so no unit of
    /// a pool pays for it.
    ColorlessMana,
    /// One mana of either of the two colors.
    HybridMana(ManaColor, ManaColor),
    /// One mana of the given color. (The alternative of two mana of any type
    /// is not offered: one unit pays one item.)
    MonocoloredHybridMana(ManaColor),
    /// One mana of the given color. (The alternative of paying life is not
    /// offered.)
    PhyrexianMana(ManaColor),
    /// One mana from a snow permanent. A pool does not record where its mana
    /// came from, so no unit of a pool pays for it.
    SnowMana,
}

impl CostItem {
    /// Whether one unit of `mana` pays this item.
    pub open spec fn accepts(self, mana: Mana) -> bool {
        match self {
            CostItem::Tap => false,
            CostItem::ColoredMana(color) => mana.color == color,
            CostItem::GenericMana => true,
            CostItem::XGenericMana => true,
            CostItem::ColorlessMana => false,
            CostItem::HybridMana(first, second) => mana.color == first || mana.color == second,
            CostItem::MonocoloredHybridMana(color) => mana.color == color,
            CostItem::PhyrexianMana(color) => mana.color == color,
            CostItem::SnowMana => false,
        }
    }

    /// Whether one unit of `mana` pays this item.
    pub fn can_be_paid_with(&self, mana: &Mana) -> (ok: bool)
        ensures
            ok == self.accepts(*mana),
    {
        match *self {
            CostItem::Tap => false,
            CostItem::ColoredMana(color) => mana.color == color,
            CostItem::GenericMana => true,
            CostItem::XGenericMana => true,
            CostItem::ColorlessMana => false,
            CostItem::HybridMana(first, second) => mana.color == first || mana.color == second,
            CostItem::MonocoloredHybridMana(color) => mana.color == color,
            CostItem::PhyrexianMana(color) => mana.color == color,
            CostItem::SnowMana => false,
        }
    }
}

/// A cost: its items, in the order in which they are paid.
#[derive(Debug)]
pub struct Cost {
    pub items: Vec<CostItem>,
}

/// The mana cost of an object.
pub type ManaCost = Cost;

impl Clone for Cost {
    fn clone(&self) -> (out: Self)
        ensures
            out.items@ == self.items@,
    {
        Cost { items: crate::types::copy_vec(&self.items) }
    }
}

} // verus!
