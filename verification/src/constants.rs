//! The fixed numbers of the game and the texts that depend on them.

use vstd::prelude::*;
use vstd::string::*;
use crate::text::{append_decimal, decimal};

verus! {

/// Width of the dungeon grid, in cells.
pub const MAP_WIDTH: i32 = 80;

/// Height of the dungeon grid, in cells.
pub const MAP_HEIGHT: i32 = 43;

/// Index of the player in the collection of live entities.
pub const PLAYER: usize = 0;

/// How many items the inventory holds at most.
pub const INVENTORY_CAPACITY: usize = 26;

/// Smallest side of a room.
pub const ROOM_MIN_SIZE: i32 = 6;

/// Largest side of a room.
pub const ROOM_MAX_SIZE: i32 = 10;

/// How many rooms the generator tries to place.
pub const MAX_ROOMS: i32 = 30;

/// Hit points that a healing potion restores.
pub const HEAL_AMOUNT: i32 = 40;

/// Damage of a lightning bolt.
pub const LIGHTNING_DAMAGE: i32 = 40;

/// Reach of a lightning bolt, in cells.
pub const LIGHTNING_RANGE: i32 = 5;

/// Reach of a confusion scroll, in cells.
pub const CONFUSE_RANGE: i32 = 8;

/// Turns that a confused monster stumbles around.
pub const CONFUSE_NUM_TURNS: i32 = 10;

/// Radius of a fireball, in cells.
pub const FIREBALL_RADIUS: i32 = 3;

/// Damage of a fireball to everything in its radius.
pub const FIREBALL_DAMAGE: i32 = 25;

/// Experience needed for the first level-up.
pub const LEVEL_UP_BASE: i32 = 200;

/// Additional experience needed per level already reached.
pub const LEVEL_UP_FACTOR: i32 = 150;

/// Hit points gained by choosing constitution at a level-up.
pub const LEVEL_UP_HP: i32 = 20;

/// The log line for reaching `level`.
pub open spec fn log_message(level: int) -> Seq<char> {
    "Your battle skills grow stronger! You reached level "@ + decimal(level)
}

/// The menu line that offers more hit points, given the current base.
pub open spec fn constitution_option(base: int) -> Seq<char> {
    "Constitution (+20 HP, from "@ + decimal(base) + ")"@
}

/// The menu line that offers more power, given the current base.
pub open spec fn strength_option(base: int) -> Seq<char> {
    "Strength (+1 attack, from "@ + decimal(base) + ")"@
}

/// The menu line that offers more defense, given the current base.
pub open spec fn agility_option(base: int) -> Seq<char> {
    "Agility (+1 defense, from "@ + decimal(base) + ")"@
}

/// The log line that announces a fireball's explosion.
pub open spec fn radius_message() -> Seq<char> {
    "The fireball explodes, burning everything within "@ + decimal(FIREBALL_RADIUS as int)
        + " tiles!"@
}

/// The log line for an entity called `name` that a fireball burns.
pub open spec fn damage_message(name: Seq<char>) -> Seq<char> {
    "The "@ + name + " gets burned for "@ + decimal(FIREBALL_DAMAGE as int) + " hit points."@
}

/// The log line for reaching `level`.
pub fn create_log_message(level: i32) -> (s: String)
    ensures
        s@ == log_message(level as int),
{
    let mut s = String::from_str("Your battle skills grow stronger! You reached level ");
    append_decimal(&mut s, level as i64);
    s
}

/// The menu line that offers more hit points, given the current base.
pub fn create_constitution_option(base: i32) -> (s: String)
    ensures
        s@ == constitution_option(base as int),
{
    let mut s = String::from_str("Constitution (+20 HP, from ");
    append_decimal(&mut s, base as i64);
    s.append(")");
    s
}

/// The menu line that offers more power, given the current base.
pub fn create_stength_option(base: i32) -> (s: String)
    ensures
        s@ == strength_option(base as int),
{
    let mut s = String::from_str("Strength (+1 attack, from ");
    append_decimal(&mut s, base as i64);
    s.append(")");
    s
}

/// The menu line that offers more defense, given the current base.
pub fn create_agility_option(base: i32) -> (s: String)
    ensures
        s@ == agility_option(base as int),
{
    let mut s = String::from_str("Agility (+1 defense, from ");
    append_decimal(&mut s, base as i64);
    s.append(")");
    s
}

/// The log line that announces a fireball's explosion.
pub fn create_radius_message() -> (s: String)
    ensures
        s@ == radius_message(),
{
    let mut s = String::from_str("The fireball explodes, burning everything within ");
    append_decimal(&mut s, FIREBALL_RADIUS as i64);
    s.append(" tiles!");
    s
}

/// The log line for an entity called `name` that a fireball burns.
pub fn create_damage_message(name: &String) -> (s: String)
    ensures
        s@ == damage_message(name@),
{
    let mut s = String::from_str("The ");
    s.append(name.as_str());
    s.append(" gets burned for ");
    append_decimal(&mut s, FIREBALL_DAMAGE as i64);
    s.append(" hit points.");
    s
}

} // verus!
