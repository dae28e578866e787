//! The record of everything that stands in the dungeon (the player,
//! monsters, items, stairs) and the state of a game session.

use vstd::prelude::*;
use vstd::string::*;
use crate::color::Color;
use crate::tile::Tile;

verus! {

/// The grid of tiles, indexed by column and then by row.
pub type TileMap = Vec<Vec<Tile>>;

/// The message log: texts with their colours, oldest first.
pub type Messages = Vec<(String, Color)>;

/// Where a piece of equipment is worn.
#[derive(Clone, Copy, Debug, PartialEq, Eq, Structural)]
pub enum Slot {
    Head,
    RightHand,
    LeftHand,
}

/// What happens when a fighter dies.
#[derive(Clone, Copy, Debug, PartialEq, Eq, Structural)]
pub enum DeathCallback {
    Player,
    Monster,
}

/// The kinds of item.
#[derive(Clone, Copy, Debug, PartialEq, Eq, Structural)]
pub enum Item {
    Heal,
    Lightning,
    Confuse,
    Fireball,
    Sword,
    Shield,
}

/// What a wearable item adds to its bearer while equipped.
#[derive(Clone, Copy, Debug, PartialEq, Eq, Structural)]
pub struct Equipment {
    pub slot: Slot,
    pub equipped: bool,
    pub power_bonus: i32,
    pub defense_bonus: i32,
    pub hp_bonus: i32,
}

/// The combat statistics of an entity that can fight.
#[derive(Clone, Copy, Debug, PartialEq, Eq, Structural)]
pub struct Fighter {
    pub base_max_hp: i32,
    pub hp: i32,
    pub base_defense: i32,
    pub base_power: i32,
    pub on_death: DeathCallback,
    pub xp: i32,
}

/// The behaviour of a monster.
#[derive(Debug)]
pub enum Ai {
    Basic,
    Confused { previous_ai: Box<Ai>, num_turns: i32 },
}

/// One thing in the dungeon.
#[derive(Debug)]
pub struct GameObject {
    pub x: i32,
    pub y: i32,
    pub char: char,
    pub color: Color,
    pub name: String,
    pub blocks: bool,
    pub alive: bool,
    pub fighter: Option<Fighter>,
    pub ai: Option<Ai>,
    pub item: Option<Item>,
    pub always_visible: bool,
    pub level: i32,
    pub equipment: Option<Equipment>,
}

/// The mathematical value of a [`GameObject`]: its fields, with the name as
/// a sequence of characters.
pub ghost struct Entity {
    pub x: i32,
    pub y: i32,
    pub char: char,
    pub color: Color,
    pub name: Seq<char>,
    pub blocks: bool,
    pub alive: bool,
    pub fighter: Option<Fighter>,
    pub ai: Option<Ai>,
    pub item: Option<Item>,
    pub always_visible: bool,
    pub level: i32,
    pub equipment: Option<Equipment>,
}

impl View for GameObject {
    type V = Entity;

    open spec fn view(&self) -> Entity {
        Entity {
            x: self.x,
            y: self.y,
            char: self.char,
            color: self.color,
            name: self.name@,
            blocks: self.blocks,
            alive: self.alive,
            fighter: self.fighter,
            ai: self.ai,
            item: self.item,
            always_visible: self.always_visible,
            level: self.level,
            equipment: self.equipment,
        }
    }
}

/// The values of a sequence of objects.
pub open spec fn entities(objects: Seq<GameObject>) -> Seq<Entity> {
    objects.map_values(|o: GameObject| o@)
}

/// One line of the message log: its text and its colour.
pub type Line = (Seq<char>, Color);

/// The lines of a message log.
pub open spec fn lines(log: Seq<(String, Color)>) -> Seq<Line> {
    log.map_values(|entry: (String, Color)| (entry.0@, entry.1))
}

/// The tiles of a grid, column by column.
pub open spec fn tiles(map: Seq<Vec<Tile>>) -> Seq<Seq<Tile>> {
    map.map_values(|column: Vec<Tile>| column@)
}

/// The state of a game session.
pub struct Game {
    pub map: TileMap,
    pub log: Messages,
    pub inventory: Vec<GameObject>,
    pub dungeon_level: u32,
}

/// The mathematical value of a [`Game`].
pub ghost struct Session {
    pub map: Seq<Seq<Tile>>,
    pub log: Seq<Line>,
    pub inventory: Seq<Entity>,
    pub dungeon_level: u32,
}

impl View for Game {
    type V = Session;

    open spec fn view(&self) -> Session {
        Session {
            map: tiles(self.map@),
            log: lines(self.log@),
            inventory: entities(self.inventory@),
            dungeon_level: self.dungeon_level,
        }
    }
}

/// A log that lines can be added to.
pub trait MessageLog {
    /// The lines that the log holds, oldest first.
    spec fn held(&self) -> Seq<Line>;

    /// Adds one line at the end of the log.
    fn add(&mut self, message: &str, color: Color)
        ensures
            final(self).held() == old(self).held().push((message@, color)),
    ;
}

impl MessageLog for Vec<(String, Color)> {
    open spec fn held(&self) -> Seq<Line> {
        lines(self@)
    }

    fn add(&mut self, message: &str, color: Color) {
        self.push((String::from_str(message), color));
        assert(lines(self@) =~= lines(old(self)@).push((message@, color)));
    }
}

impl GameObject {
    /// A new object at `(x, y)`: not alive, without components, at level 1.
    pub fn new(x: i32, y: i32, char: char, name: &str, color: Color, blocks: bool) -> (o: Self)
        ensures
            o@ == (Entity {
                x,
                y,
                char,
                color,
                name: name@,
                blocks,
                alive: false,
                fighter: None,
                ai: None,
                item: None,
                always_visible: false,
                level: 1,
                equipment: None,
            }),
    {
        GameObject {
            x,
            y,
            char,
            color,
            name: String::from_str(name),
            blocks,
            alive: false,
            fighter: None,
            ai: None,
            item: None,
            always_visible: false,
            level: 1,
            equipment: None,
        }
    }

    /// The cell on which the object stands.
    pub fn pos(&self) -> (p: (i32, i32))
        ensures
            p == (self.x, self.y),
    {
        (self.x, self.y)
    }

    /// Puts the object on the cell `(x, y)`.
    pub fn set_pos(&mut self, x: i32, y: i32)
        ensures
            final(self)@ == (Entity { x, y, ..old(self)@ }),
    {
        self.x = x;
        self.y = y;
    }

    /// The square of the straight-line distance from the object to `(x, y)`.
    pub fn distance_squared(&self, x: i32, y: i32) -> (d: i128)
        ensures
            d == squared_distance(self.x as int, self.y as int, x as int, y as int),
    {
        let dx: i128 = x as i128 - self.x as i128;
        let dy: i128 = y as i128 - self.y as i128;
        assert(-0x1_0000_0000 <= dx <= 0x1_0000_0000);
        assert(-0x1_0000_0000 <= dy <= 0x1_0000_0000);
        assert(dx * dx <= 0x1_0000_0000_0000_0000) by (nonlinear_arith)
            requires
                -0x1_0000_0000 <= dx <= 0x1_0000_0000,
        ;
        assert(dy * dy <= 0x1_0000_0000_0000_0000) by (nonlinear_arith)
            requires
                -0x1_0000_0000 <= dy <= 0x1_0000_0000,
        ;
        assert(dx * dx >= 0) by (nonlinear_arith);
        assert(dy * dy >= 0) by (nonlinear_arith);
        dx * dx + dy * dy
    }

    /// The square of the straight-line distance between two objects.
    pub fn distance_squared_to(&self, other: &GameObject) -> (d: i128)
        ensures
            d == squared_distance(self.x as int, self.y as int, other.x as int, other.y as int),
    {
        self.distance_squared(other.x, other.y)
    }
}

/// The square of the straight-line distance between two cells.
pub open spec fn squared_distance(x1: int, y1: int, x2: int, y2: int) -> int {
    (x2 - x1) * (x2 - x1) + (y2 - y1) * (y2 - y1)
}

} // verus!
