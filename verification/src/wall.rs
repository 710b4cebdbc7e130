//! The kinds of areas whose walls keep enemy groups in.

use vstd::prelude::*;

verus! {

/// The kind of an area of the map; each enemy group lists the kinds of walls
/// that stop it.
#[derive(PartialEq, Eq, Clone, Copy, Debug, Structural)]
pub enum WallType {
    Dirt,
    Wind,
    Flower,
    Water,
    Fire,
    SpawnA,
    SpawnB,
    Blackhole,
    Shooting,
    Explosion,
    Snake,
    Ice,
    Poison,
    Lightning,
    Candy,
    Hell,
}

} // verus!
