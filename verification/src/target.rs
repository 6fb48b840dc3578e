//! What a spell or an ability can be aimed at.

use vstd::prelude::*;
use crate::entity::EntityId;
use crate::player::PlayerId;

verus! {

/// A target: an object or a player.
#[derive(Clone, Copy, Debug, PartialEq, Eq, Structural, Hash)]
pub enum Target {
    Object(EntityId),
    Player(PlayerId),
}

} // verus!
