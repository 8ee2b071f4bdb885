//! Procedural assembly of a rectangular world grid out of fixed-size
//! template pieces whose connectors always line up with their neighbours.

pub mod chunk;
pub mod config;
pub mod data;
pub mod dungeon;
pub mod integrity;
pub mod mask;
pub mod matrix;
mod random;
pub mod select;
pub mod ui;
pub mod vector;
