//! Settings and the dungeon definition as the configuration supplies them.

use crate::chunk::DungeonChunk;
use vstd::prelude::*;

verus! {

/// A size in whole units.
#[derive(Clone, Copy, Debug, Default, PartialEq, Eq, Structural)]
pub struct Size {
    pub w: u32,
    pub h: u32,
}

/// Key bindings for user input.
#[derive(Clone, Debug, Default)]
pub struct KeyMap {
    pub up: String,
    pub down: String,
    pub left: String,
    pub right: String,
    pub follow: String,
    pub interact: String,
    pub inventory: String,
    pub menu: String,
    pub attack: String,
    pub utilize: String,
    pub map: String,
}

/// Settings of the game itself.
#[derive(Clone, Copy, Debug, Default, PartialEq, Eq, Structural)]
pub struct GameSettings {
    /// How many tiles away from the player an object can still be used.
    pub interaction_range: u32,
}

/// The host platform.
#[derive(Clone, Copy, Debug, PartialEq, Eq, Structural)]
pub enum OS {
    Mac,
    Windows,
    Linux,
}

/// The dungeon definition: the templates sorted by threshold, the upper
/// end of the threshold interval, and the template that seeds the grid.
#[derive(Clone, Debug)]
pub struct Dungeon<S> {
    pub default_chunk: u16,
    pub net_weight: u16,
    pub chunks: Vec<DungeonChunk<S>>,
}

} // verus!
