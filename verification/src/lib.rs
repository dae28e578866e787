//! Rules of a turn-based dungeon crawler: the grid, the entities on it,
//! combat, spells, monster behaviour and dungeon generation.

pub mod ai;
pub mod chance;
pub mod color;
pub mod combat;
pub mod constants;
pub mod data_manipulation;
pub mod dungeon;
pub mod entity;
pub mod fov;
pub mod generator;
pub mod items;
pub mod player;
pub mod population;
pub mod render;
pub mod safety;
pub mod session;
pub mod spell_effects;
pub mod targeting;
pub mod text;
pub mod tile;
