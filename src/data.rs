//! Character, race and mission records that the world's configuration
//! supplies alongside the dungeon templates.

use vstd::prelude::*;

verus! {

/// Attribute scores of a character, class or race.
#[derive(Clone, Debug)]
pub struct Stats {
    pub stg: i32,
    pub agi: i32,
    pub dex: i32,
    pub int: i32,
    pub luk: i32,
    pub vit: i32,
    pub def: i32,
    pub rng: i32,
}

impl Default for Stats {
    fn default() -> (s: Stats)
        ensures
            s.stg == 0 && s.agi == 0 && s.dex == 0 && s.int == 0 && s.luk == 0 && s.vit == 0
                && s.def == 0 && s.rng == 0,
    {
        Stats { stg: 0, agi: 0, dex: 0, int: 0, luk: 0, vit: 0, def: 0, rng: 0 }
    }
}

/// Elemental affinity; `Neutral` is the absence of one.
#[derive(Clone, Copy, Debug, PartialEq, Eq, Structural)]
pub enum Affinity {
    Neutral,
    Fire,
    Water,
    Earth,
    Air,
    Light,
    Dark,
    Lightning,
}

#[derive(Clone, Debug)]
pub struct Class {
    pub id: String,
    pub name: String,
    pub stats: Stats,
}

#[derive(Clone, Debug)]
pub struct Race {
    pub id: String,
    pub name: String,
    pub texture: String,
    pub stats: Stats,
    pub affinity: Affinity,
}

/// Defeat `number` targets of kind `target`; `count` records progress.
#[derive(Clone, Debug)]
pub struct Hunt {
    pub number: i32,
    pub count: i32,
    pub target: String,
}

/// What a mission asks for.
#[derive(Clone, Debug)]
pub enum Goal {
    Hunt(Hunt),
}

/// An inclusive range of amounts.
#[derive(Clone, Copy, Debug, PartialEq, Eq, Structural)]
pub struct Range {
    pub min: i32,
    pub max: i32,
}

/// How many of an item a defeated mob drops.
#[derive(Clone, Copy, Debug, PartialEq, Eq, Structural)]
pub enum DropType {
    Fixed(i32),
    Range(Range),
}

} // verus!
