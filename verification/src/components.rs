//! Entity components the engine owns itself.

use vstd::prelude::*;

verus! {

/// The component that marks the player's own entity.
#[derive(Debug, Clone, Copy, PartialEq, Eq, Structural)]
pub struct PlayerTag;

} // verus!
