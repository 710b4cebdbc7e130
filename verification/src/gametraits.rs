//! Identifiers shared by the game's entities.

use vstd::prelude::*;

verus! {

/// Names an entity of the game: a player by index, or an enemy by its group's
/// index and its index in the group.
#[derive(PartialEq, Eq, Hash, Debug, Clone, Copy, Structural)]
pub enum EntityIndex {
    Player { p: usize },
    Enemy { g: usize, e: usize },
}

} // verus!
