//! Keyword abilities.

use vstd::prelude::*;

verus! {

/// A keyword ability: an ability that an object lists only by name.
#[derive(Clone, Copy, Debug, PartialEq, Eq, Structural)]
pub struct KeywordAbility;

} // verus!
