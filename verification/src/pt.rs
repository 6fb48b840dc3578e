//! Power and toughness, and the effects that change them.

use vstd::prelude::*;
use crate::entity::EntityId;

verus! {

/// A power and a toughness.
#[derive(Clone, Copy, Debug, PartialEq, Eq, Structural)]
pub struct PtValue {
    pub power: i64,
    pub toughness: i64,
}

impl PtValue {
    /// The pair of `power` and `toughness`.
    pub fn new(power: i64, toughness: i64) -> (value: Self)
        ensures
            value == (PtValue { power, toughness }),
    {
        PtValue { power, toughness }
    }

    /// The sum of two pairs, each half wrapping round at the ends of `i64`.
    pub open spec fn plus(self, other: PtValue) -> PtValue {
        PtValue {
            power: self.power.wrapping_add(other.power),
            toughness: self.toughness.wrapping_add(other.toughness),
        }
    }

    /// The pair with its halves exchanged.
    pub open spec fn switched(self) -> PtValue {
        PtValue { power: self.toughness, toughness: self.power }
    }
}

/// The base power and toughness printed on an object.
#[derive(Clone, Copy, Debug, PartialEq, Eq, Structural)]
pub enum PtCharacteristic {
    /// A fixed pair.
    Normal(PtValue),
}

impl PtCharacteristic {
    /// The base value.
    pub open spec fn value(self) -> PtValue {
        match self {
            PtCharacteristic::Normal(value) => value,
        }
    }

    /// The base value that this characteristic stands for.
    pub fn resolve(&self) -> (value: PtValue)
        ensures
            value == self.value(),
    {
        match self {
            PtCharacteristic::Normal(value) => *value,
        }
    }
}

/// An effect that sets the power and toughness of its target.
#[derive(Clone, Copy, Debug, PartialEq, Eq, Structural)]
pub struct SetPtEffect {
    pub target: EntityId,
    pub value: PtValue,
}

/// An effect that adds to the power and toughness of its target.
#[derive(Clone, Copy, Debug, PartialEq, Eq, Structural)]
pub struct AdjustPtEffect {
    pub target: EntityId,
    pub adjustment: PtValue,
}

/// An effect that exchanges the power and toughness of its target.
#[derive(Clone, Copy, Debug, PartialEq, Eq, Structural)]
pub struct SwitchPtEffect {
    pub target: EntityId,
}

} // verus!
