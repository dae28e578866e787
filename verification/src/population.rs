//! What lives in a room: the monsters and items of each depth, and how a
//! room is populated.

use vstd::prelude::*;
use crate::chance::{random_in_range, total_weight, weighted_index};
use crate::color::{
    Color, darker_green, darker_orange, desaturated_green, light_yellow, sky,
    spec_darker_green, spec_darker_orange, spec_desaturated_green, spec_light_yellow, spec_sky,
    spec_violet, violet,
};
use crate::constants::{MAP_HEIGHT, MAP_WIDTH};
use crate::dungeon::{
    Rect, Transition, blocked, from_dungeon_level, grid_ok, is_blocked, step_value,
};
use crate::entity::{
    Ai, DeathCallback, Entity, Equipment, Fighter, GameObject, Item, Slot, TileMap, entities,
    tiles,
};
use crate::tile::Tile;

verus! {


/// The kinds of monster.
#[derive(Clone, Copy, Debug, PartialEq, Eq, Structural)]
pub enum Enemies {
    Orc,
    Troll,
}

proof fn lemma_step_value_unfold(table: Seq<Transition>, level: u32)
    requires
        table.len() > 0,
    ensures
        step_value(table, level) == if level >= table.last().level {
            table.last().value
        } else {
            step_value(table.drop_last(), level)
        },
{
}

proof fn lemma_steps_1(table: Seq<Transition>, level: u32)
    requires
        table.len() == 1,
    ensures
        step_value(table, level) == if level >= table[0].level {
            table[0].value
        } else {
            0
        },
{
    lemma_step_value_unfold(table, level);
    assert(table.drop_last().len() == 0);
}

proof fn lemma_steps_2(table: Seq<Transition>, level: u32)
    requires
        table.len() == 2,
    ensures
        step_value(table, level) == if level >= table[1].level {
            table[1].value
        } else if level >= table[0].level {
            table[0].value
        } else {
            0
        },
{
    lemma_step_value_unfold(table, level);
    lemma_steps_1(table.drop_last(), level);
}

proof fn lemma_steps_3(table: Seq<Transition>, level: u32)
    requires
        table.len() == 3,
    ensures
        step_value(table, level) == if level >= table[2].level {
            table[2].value
        } else if level >= table[1].level {
            table[1].value
        } else if level >= table[0].level {
            table[0].value
        } else {
            0
        },
{
    lemma_step_value_unfold(table, level);
    lemma_steps_2(table.drop_last(), level);
}

/// The most monsters that a room gets at `level`.
pub open spec fn monster_limit(level: u32) -> u32 {
    if level >= 6 {
        5
    } else if level >= 4 {
        3
    } else if level >= 1 {
        2
    } else {
        0
    }
}

/// The most items that a room gets at `level`.
pub open spec fn item_limit(level: u32) -> u32 {
    if level >= 4 {
        2
    } else if level >= 1 {
        1
    } else {
        0
    }
}

/// The weight with which a kind of monster is chosen at `level`.
pub open spec fn monster_weight(kind: Enemies, level: u32) -> u32 {
    match kind {
        Enemies::Orc => 80,
        Enemies::Troll => if level >= 7 {
            60
        } else if level >= 5 {
            30
        } else if level >= 3 {
            15
        } else {
            0
        },
    }
}

/// The weight with which a kind of item is chosen at `level`.
pub open spec fn item_weight(kind: Item, level: u32) -> u32 {
    match kind {
        Item::Heal => 35,
        Item::Lightning => if level >= 4 {
            25
        } else {
            0
        },
        Item::Fireball => if level >= 6 {
            25
        } else {
            0
        },
        Item::Confuse => if level >= 2 {
            10
        } else {
            0
        },
        Item::Sword => if level >= 4 {
            5
        } else {
            0
        },
        Item::Shield => if level >= 8 {
            15
        } else {
            0
        },
    }
}

/// The most monsters that a room gets at `level`.
pub fn max_monsters(level: u32) -> (n: u32)
    ensures
        n == monster_limit(level),
{
    let table = [Transition::new(1, 2), Transition::new(4, 3), Transition::new(6, 5)];
    proof {
        lemma_steps_3(table@, level);
    }
    from_dungeon_level(table.as_slice(), level)
}

/// The most items that a room gets at `level`.
pub fn max_items(level: u32) -> (n: u32)
    ensures
        n == item_limit(level),
{
    let table = [Transition::new(1, 1), Transition::new(4, 2)];
    proof {
        lemma_steps_2(table@, level);
    }
    from_dungeon_level(table.as_slice(), level)
}

fn from_level(from: u32, value: u32, level: u32) -> (n: u32)
    ensures
        n == if level >= from {
            value
        } else {
            0
        },
{
    let table = [Transition::new(from, value)];
    proof {
        lemma_steps_1(table@, level);
    }
    from_dungeon_level(table.as_slice(), level)
}

/// The weight with which a kind of monster is chosen at `level`.
pub fn monster_chance(kind: Enemies, level: u32) -> (weight: u32)
    ensures
        weight == monster_weight(kind, level),
{
    match kind {
        Enemies::Orc => 80,
        Enemies::Troll => {
            let table = [Transition::new(3, 15), Transition::new(5, 30), Transition::new(7, 60)];
            proof {
                lemma_steps_3(table@, level);
            }
            from_dungeon_level(table.as_slice(), level)
        },
    }
}

/// The weight with which a kind of item is chosen at `level`.
pub fn item_chance(kind: Item, level: u32) -> (weight: u32)
    ensures
        weight == item_weight(kind, level),
{
    match kind {
        Item::Heal => 35,
        Item::Lightning => from_level(4, 25, level),
        Item::Fireball => from_level(6, 25, level),
        Item::Confuse => from_level(2, 10, level),
        Item::Sword => from_level(4, 5, level),
        Item::Shield => from_level(8, 15, level),
    }
}

/// A thing without components at `(x, y)`: what [`GameObject::new`] makes.
pub open spec fn plain(
    x: i32,
    y: i32,
    char: char,
    name: Seq<char>,
    color: Color,
    blocks: bool,
) -> Entity {
    Entity {
        x,
        y,
        char,
        color,
        name,
        blocks,
        alive: false,
        fighter: None,
        ai: None,
        item: None,
        always_visible: false,
        level: 1,
        equipment: None,
    }
}

/// A living monster of the given kind at `(x, y)`.
pub open spec fn monster(kind: Enemies, x: i32, y: i32) -> Entity {
    match kind {
        Enemies::Orc => Entity {
            alive: true,
            fighter: Some(
                Fighter {
                    base_max_hp: 20,
                    hp: 20,
                    base_defense: 0,
                    base_power: 4,
                    on_death: DeathCallback::Monster,
                    xp: 35,
                },
            ),
            ai: Some(Ai::Basic),
            ..plain(x, y, 'o', "Orc"@, spec_desaturated_green(), true)
        },
        Enemies::Troll => Entity {
            alive: true,
            fighter: Some(
                Fighter {
                    base_max_hp: 30,
                    hp: 30,
                    base_defense: 2,
                    base_power: 8,
                    on_death: DeathCallback::Monster,
                    xp: 100,
                },
            ),
            ai: Some(Ai::Basic),
            ..plain(x, y, 'T', "Troll"@, spec_darker_green(), true)
        },
    }
}

/// An item of the given kind that lies at `(x, y)`.
pub open spec fn item_on_floor(kind: Item, x: i32, y: i32) -> Entity {
    match kind {
        Item::Heal => Entity {
            item: Some(Item::Heal),
            always_visible: true,
            ..plain(x, y, '!', "Healing Potion"@, spec_violet(), false)
        },
        Item::Lightning => Entity {
            item: Some(Item::Lightning),
            always_visible: true,
            ..plain(x, y, '#', "Scroll of Lightning Bolt"@, spec_light_yellow(), false)
        },
        Item::Fireball => Entity {
            item: Some(Item::Fireball),
            always_visible: true,
            ..plain(x, y, '#', "Scroll of Fireball"@, spec_light_yellow(), false)
        },
        Item::Confuse => Entity {
            item: Some(Item::Confuse),
            always_visible: true,
            ..plain(x, y, '#', "Scroll of Confusion"@, spec_light_yellow(), false)
        },
        Item::Sword => Entity {
            item: Some(Item::Sword),
            always_visible: true,
            equipment: Some(
                Equipment {
                    slot: Slot::RightHand,
                    equipped: false,
                    power_bonus: 3,
                    defense_bonus: 0,
                    hp_bonus: 0,
                },
            ),
            ..plain(x, y, '/', "Sword"@, spec_sky(), false)
        },
        Item::Shield => Entity {
            item: Some(Item::Shield),
            always_visible: true,
            equipment: Some(
                Equipment {
                    slot: Slot::LeftHand,
                    equipped: false,
                    power_bonus: 0,
                    defense_bonus: 1,
                    hp_bonus: 0,
                },
            ),
            ..plain(x, y, '[', "Shield"@, spec_darker_orange(), false)
        },
    }
}

/// Makes a living monster of the given kind at `(x, y)`.
pub fn spawn_monster(kind: Enemies, x: i32, y: i32) -> (o: GameObject)
    ensures
        o@ == monster(kind, x, y),
{
    let mut o = match kind {
        Enemies::Orc => {
            let mut orc = GameObject::new(x, y, 'o', "Orc", desaturated_green(), true);
            orc.fighter = Some(
                Fighter {
                    base_max_hp: 20,
                    hp: 20,
                    base_defense: 0,
                    base_power: 4,
                    on_death: DeathCallback::Monster,
                    xp: 35,
                },
            );
            orc.ai = Some(Ai::Basic);
            orc
        },
        Enemies::Troll => {
            let mut troll = GameObject::new(x, y, 'T', "Troll", darker_green(), true);
            troll.fighter = Some(
                Fighter {
                    base_max_hp: 30,
                    hp: 30,
                    base_defense: 2,
                    base_power: 8,
                    on_death: DeathCallback::Monster,
                    xp: 100,
                },
            );
            troll.ai = Some(Ai::Basic);
            troll
        },
    };
    o.alive = true;
    o
}

/// Makes an item of the given kind that lies at `(x, y)`.
pub fn spawn_item(kind: Item, x: i32, y: i32) -> (o: GameObject)
    ensures
        o@ == item_on_floor(kind, x, y),
{
    let mut o = match kind {
        Item::Heal => {
            let mut object = GameObject::new(x, y, '!', "Healing Potion", violet(), false);
            object.item = Some(Item::Heal);
            object
        },
        Item::Lightning => {
            let mut object = GameObject::new(
                x,
                y,
                '#',
                "Scroll of Lightning Bolt",
                light_yellow(),
                false,
            );
            object.item = Some(Item::Lightning);
            object
        },
        Item::Fireball => {
            let mut object = GameObject::new(
                x,
                y,
                '#',
                "Scroll of Fireball",
                light_yellow(),
                false,
            );
            object.item = Some(Item::Fireball);
            object
        },
        Item::Confuse => {
            let mut object = GameObject::new(
                x,
                y,
                '#',
                "Scroll of Confusion",
                light_yellow(),
                false,
            );
            object.item = Some(Item::Confuse);
            object
        },
        Item::Sword => {
            let mut object = GameObject::new(x, y, '/', "Sword", sky(), false);
            object.item = Some(Item::Sword);
            object.equipment = Some(
                Equipment {
                    equipped: false,
                    slot: Slot::RightHand,
                    power_bonus: 3,
                    defense_bonus: 0,
                    hp_bonus: 0,
                },
            );
            object
        },
        Item::Shield => {
            let mut object = GameObject::new(x, y, '[', "Shield", darker_orange(), false);
            object.item = Some(Item::Shield);
            object.equipment = Some(
                Equipment {
                    equipped: false,
                    slot: Slot::LeftHand,
                    hp_bonus: 0,
                    defense_bonus: 1,
                    power_bonus: 0,
                },
            );
            object
        },
    };
    o.always_visible = true;
    o
}

/// Whether some object, blocking or not, is on `(x, y)`.
pub open spec fn taken(objects: Seq<Entity>, x: int, y: int) -> bool {
    exists|i: int| 0 <= i < objects.len() && is_at(#[trigger] objects[i], x, y)
}

/// Whether the entity is on `(x, y)`.
pub open spec fn is_at(e: Entity, x: int, y: int) -> bool {
    e.x == x && e.y == y
}

/// Whether some object is on `(x, y)`.
pub fn is_taken(objects: &Vec<GameObject>, x: i32, y: i32) -> (b: bool)
    ensures
        b == taken(entities(objects@), x as int, y as int),
{
    let mut i: usize = 0;
    while i < objects.len()
        invariant
            i <= objects.len(),
            forall|j: int|
                0 <= j < i ==> !is_at(#[trigger] entities(objects@)[j], x as int, y as int),
        decreases objects.len() - i,
    {
        assert(entities(objects@)[i as int] == objects[i as int]@);
        if objects[i].x == x && objects[i].y == y {
            return true;
        }
        i += 1;
    }
    false
}

/// Whether the cell `a` comes before the cell `b`, column by column.
pub open spec fn cell_before(a: (i32, i32), b: (i32, i32)) -> bool {
    a.0 < b.0 || (a.0 == b.0 && a.1 < b.1)
}

/// Whether `cells` lists the free cells inside `room`: each cell inside
/// the room on which no object is, once, column by column.
pub open spec fn lists_free_cells(
    cells: Seq<(i32, i32)>,
    room: Rect,
    objects: Seq<Entity>,
) -> bool {
    &&& forall|k: int|
        0 <= k < cells.len() ==> room.holds((#[trigger] cells[k]).0 as int, cells[k].1 as int)
            && !taken(objects, cells[k].0 as int, cells[k].1 as int)
    &&& forall|x: i32, y: i32|
        room.holds(x as int, y as int) && !taken(objects, x as int, y as int)
            ==> cells.contains((x, y))
    &&& forall|j: int, k: int|
        0 <= j < k < cells.len() ==> cell_before(#[trigger] cells[j], #[trigger] cells[k])
}

/// The free cells of column `x` inside `room` that lie above row `y`, from
/// the top down.
pub open spec fn free_in_column(room: Rect, objects: Seq<Entity>, x: int, y: int) -> Seq<
    (i32, i32),
>
    decreases y - room.y1,
{
    if y <= room.y1 + 1 {
        seq![]
    } else if taken(objects, x, y - 1) {
        free_in_column(room, objects, x, y - 1)
    } else {
        free_in_column(room, objects, x, y - 1).push((x as i32, (y - 1) as i32))
    }
}

/// The free cells inside `room` in the columns left of column `x`, column
/// by column.
pub open spec fn free_in_columns(room: Rect, objects: Seq<Entity>, x: int) -> Seq<(i32, i32)>
    decreases x - room.x1,
{
    if x <= room.x1 + 1 {
        seq![]
    } else {
        free_in_columns(room, objects, x - 1) + free_in_column(
            room,
            objects,
            x - 1,
            room.y2 as int,
        )
    }
}

/// The free cells inside `room`: the cells inside the room on which no
/// object is, column by column and each column from the top down.
pub open spec fn free_in(room: Rect, objects: Seq<Entity>) -> Seq<(i32, i32)> {
    free_in_columns(room, objects, room.x2 as int)
}

proof fn lemma_no_rows(room: Rect, objects: Seq<Entity>, x: int)
    requires
        room.y2 - room.y1 < 2,
    ensures
        free_in_columns(room, objects, x) == Seq::<(i32, i32)>::empty(),
    decreases x - room.x1,
{
    if x > room.x1 + 1 {
        lemma_no_rows(room, objects, x - 1);
        assert(free_in_column(room, objects, x - 1, room.y2 as int) =~= Seq::<
            (i32, i32),
        >::empty());
        assert(free_in_columns(room, objects, x) =~= Seq::<(i32, i32)>::empty());
    }
}

/// The free cells inside `room`.
pub fn free_cells(room: Rect, objects: &Vec<GameObject>) -> (cells: Vec<(i32, i32)>)
    requires
        room.on_grid(),
    ensures
        cells@ == free_in(room, entities(objects@)),
        lists_free_cells(cells@, room, entities(objects@)),
        cells.len() <= MAP_WIDTH * MAP_HEIGHT,
{
    let mut cells: Vec<(i32, i32)> = Vec::new();
    let ghost all = entities(objects@);
    if room.x2 - room.x1 < 2 || room.y2 - room.y1 < 2 {
        proof {
            if room.y2 - room.y1 < 2 {
                lemma_no_rows(room, all, room.x2 as int);
            }
            assert(cells@ =~= free_in(room, all));
        }
        return cells;
    }
    assert(cells@ =~= free_in_columns(room, all, room.x1 + 1));
    let mut x: i32 = room.x1 + 1;
    while x < room.x2
        invariant
            room.on_grid(),
            all == entities(objects@),
            room.x1 < x <= room.x2,
            room.y2 - room.y1 >= 2,
            cells@ == free_in_columns(room, all, x as int),
            cells.len() <= (x - room.x1 - 1) * MAP_HEIGHT,
            forall|k: int|
                0 <= k < cells.len() ==> room.holds(
                    (#[trigger] cells[k]).0 as int,
                    cells[k].1 as int,
                )
                    && !taken(all, cells[k].0 as int, cells[k].1 as int) && cells[k].0 < x,
            forall|cx: i32, cy: i32|
                room.holds(cx as int, cy as int) && !taken(all, cx as int, cy as int) && cx < x
                    ==> cells@.contains((cx, cy)),
            forall|j: int, k: int|
                0 <= j < k < cells.len() ==> cell_before(#[trigger] cells[j], #[trigger] cells[k]),
        decreases room.x2 - x,
    {
        let mut y: i32 = room.y1 + 1;
        let ghost start = cells.len();
        assert(cells@ =~= free_in_columns(room, all, x as int) + free_in_column(
            room,
            all,
            x as int,
            y as int,
        ));
        while y < room.y2
            invariant
                room.on_grid(),
                all == entities(objects@),
                room.x1 < x < room.x2,
                room.y1 < y <= room.y2,
                cells@ == free_in_columns(room, all, x as int) + free_in_column(
                    room,
                    all,
                    x as int,
                    y as int,
                ),
                start <= (x - room.x1 - 1) * MAP_HEIGHT,
                cells.len() <= start + (y - room.y1 - 1),
                forall|k: int|
                    0 <= k < cells.len() ==> room.holds(
                        (#[trigger] cells[k]).0 as int,
                        cells[k].1 as int,
                    ) && !taken(all, cells[k].0 as int, cells[k].1 as int) && (cells[k].0 < x || (
                    cells[k].0 == x && cells[k].1 < y)),
                forall|cx: i32, cy: i32|
                    room.holds(cx as int, cy as int) && !taken(all, cx as int, cy as int) && (cx < x
                        || (cx == x && cy < y)) ==> cells@.contains((cx, cy)),
                forall|j: int, k: int|
                    0 <= j < k < cells.len() ==> cell_before(
                        #[trigger] cells[j],
                        #[trigger] cells[k],
                    ),
            decreases room.y2 - y,
        {
            let ghost before = cells@;
            if !is_taken(objects, x, y) {
                cells.push((x, y));
                assert(cells@[cells.len() - 1] == (x, y));
            }
            assert(cells@ =~= free_in_columns(room, all, x as int) + free_in_column(
                room,
                all,
                x as int,
                y + 1,
            ));
            assert forall|cx: i32, cy: i32|
                room.holds(cx as int, cy as int) && !taken(all, cx as int, cy as int) && (cx < x
                    || (cx == x && cy < y + 1)) implies cells@.contains((cx, cy)) by {
                if cx == x && cy == y {
                    assert(cells@[cells.len() - 1] == (cx, cy));
                } else {
                    assert(before.contains((cx, cy)));
                    let k = choose|k: int| 0 <= k < before.len() && before[k] == (cx, cy);
                    assert(cells@[k] == (cx, cy));
                }
            }
            y += 1;
        }
        assert((x - room.x1 - 1) * MAP_HEIGHT + (room.y2 - room.y1 - 1) <= (x + 1 - room.x1 - 1)
            * MAP_HEIGHT) by (nonlinear_arith)
            requires
                room.y2 - room.y1 - 1 <= MAP_HEIGHT,
        ;
        x += 1;
    }
    assert((room.x2 - room.x1 - 1) * MAP_HEIGHT <= MAP_WIDTH * MAP_HEIGHT) by (nonlinear_arith)
        requires
            room.x2 - room.x1 - 1 <= MAP_WIDTH,
    ;
    cells
}

/// The kind of monster at a place in the list of monster weights.
pub open spec fn monster_at(index: int) -> Enemies {
    if index == 0 {
        Enemies::Orc
    } else {
        Enemies::Troll
    }
}

/// The kind of item at a place in the list of item weights.
pub open spec fn item_at(index: int) -> Item {
    if index == 0 {
        Item::Heal
    } else if index == 1 {
        Item::Lightning
    } else if index == 2 {
        Item::Fireball
    } else if index == 3 {
        Item::Confuse
    } else if index == 4 {
        Item::Sword
    } else {
        Item::Shield
    }
}

/// The kind of monster at a place in the list of monster weights.
pub fn monster_kind(index: usize) -> (kind: Enemies)
    ensures
        kind == monster_at(index as int),
{
    if index == 0 {
        Enemies::Orc
    } else {
        Enemies::Troll
    }
}

/// The kind of item at a place in the list of item weights.
pub fn item_kind(index: usize) -> (kind: Item)
    ensures
        kind == item_at(index as int),
{
    if index == 0 {
        Item::Heal
    } else if index == 1 {
        Item::Lightning
    } else if index == 2 {
        Item::Fireball
    } else if index == 3 {
        Item::Confuse
    } else if index == 4 {
        Item::Sword
    } else {
        Item::Shield
    }
}

/// The weights of the kinds of monster at `level`, in the order of
/// [`monster_at`].
pub fn monster_chances(level: u32) -> (weights: Vec<u32>)
    ensures
        weights.len() == 2,
        forall|i: int| 0 <= i < 2 ==> #[trigger] weights[i] == monster_weight(monster_at(i), level),
{
    let mut weights: Vec<u32> = Vec::new();
    weights.push(monster_chance(Enemies::Orc, level));
    weights.push(monster_chance(Enemies::Troll, level));
    weights
}

/// The weights of the kinds of item at `level`, in the order of
/// [`item_at`].
pub fn item_chances(level: u32) -> (weights: Vec<u32>)
    ensures
        weights.len() == 6,
        forall|i: int| 0 <= i < 6 ==> #[trigger] weights[i] == item_weight(item_at(i), level),
{
    let mut weights: Vec<u32> = Vec::new();
    weights.push(item_chance(Item::Heal, level));
    weights.push(item_chance(Item::Lightning, level));
    weights.push(item_chance(Item::Fireball, level));
    weights.push(item_chance(Item::Confuse, level));
    weights.push(item_chance(Item::Sword, level));
    weights.push(item_chance(Item::Shield, level));
    weights
}

proof fn lemma_total_weight(weights: Seq<u32>, cap: int)
    requires
        forall|i: int| 0 <= i < weights.len() ==> #[trigger] weights[i] <= cap,
    ensures
        0 <= total_weight(weights) <= cap * weights.len(),
        forall|i: int| 0 <= i < weights.len() ==> #[trigger] weights[i] <= total_weight(weights),
    decreases weights.len(),
{
    if weights.len() > 0 {
        lemma_total_weight(weights.drop_last(), cap);
        assert(cap * (weights.len() - 1) + cap == cap * weights.len()) by (nonlinear_arith);
        assert forall|i: int| 0 <= i < weights.len() implies #[trigger] weights[i] <= total_weight(
            weights,
        ) by {
            if i < weights.len() - 1 {
                assert(weights.drop_last()[i] == weights[i]);
            }
        }
    }
}

/// Whether the entity is a monster as generation makes them at `level`: of
/// a kind whose weight is not zero there.
pub open spec fn is_monster_spawn(e: Entity, level: u32) -> bool {
    exists|i: int|
        0 <= i < 2 && monster_weight(monster_at(i), level) > 0 && e == #[trigger] monster(
            monster_at(i),
            e.x,
            e.y,
        )
}

/// Whether the entity is an item as generation makes them at `level`: of a
/// kind whose weight is not zero there.
pub open spec fn is_item_spawn(e: Entity, level: u32) -> bool {
    exists|i: int|
        0 <= i < 6 && item_weight(item_at(i), level) > 0 && e == #[trigger] item_on_floor(
            item_at(i),
            e.x,
            e.y,
        )
}

/// Whether `e` is placed in `room` as generation does it: inside the room,
/// on a cell where none of the `earlier` objects is; a monster whatever the
/// tile is, an item only on a tile that is not blocked.
pub open spec fn placed_in(
    e: Entity,
    earlier: Seq<Entity>,
    room: Rect,
    map: Seq<Seq<Tile>>,
    level: u32,
) -> bool {
    &&& room.holds(e.x as int, e.y as int)
    &&& !taken(earlier, e.x as int, e.y as int)
    &&& is_monster_spawn(e, level) || (is_item_spawn(e, level) && !map[e.x as int][e.y
        as int].blocked)
}

/// Whether `e` is a monster of `level` inside `room`, on a cell where none
/// of the `earlier` objects is.
pub open spec fn placed_monster(e: Entity, earlier: Seq<Entity>, room: Rect, level: u32) -> bool {
    &&& room.holds(e.x as int, e.y as int)
    &&& !taken(earlier, e.x as int, e.y as int)
    &&& is_monster_spawn(e, level)
}

/// Whether `e` is an item of `level` inside `room`, on a cell where none of
/// the `earlier` objects is and whose tile is not blocked.
pub open spec fn placed_item(
    e: Entity,
    earlier: Seq<Entity>,
    room: Rect,
    map: Seq<Seq<Tile>>,
    level: u32,
) -> bool {
    &&& room.holds(e.x as int, e.y as int)
    &&& !taken(earlier, e.x as int, e.y as int)
    &&& is_item_spawn(e, level)
    &&& !map[e.x as int][e.y as int].blocked
}

/// Whether `after` is `before` with a room's population added at the end,
/// the items beginning at `first_item`: first the monsters, at most as many
/// as `level` allows, then the items, at most as many as `level` allows,
/// each placed in the room on a cell that was free when it came.
pub open spec fn populated_from(
    before: Seq<Entity>,
    after: Seq<Entity>,
    room: Rect,
    map: Seq<Seq<Tile>>,
    level: u32,
    first_item: int,
) -> bool {
    &&& before.len() <= first_item <= after.len()
    &&& first_item - before.len() <= monster_limit(level)
    &&& after.len() - first_item <= item_limit(level)
    &&& after.take(before.len() as int) == before
    &&& forall|k: int|
        before.len() <= k < first_item ==> placed_monster(
            #[trigger] after[k],
            after.take(k),
            room,
            level,
        )
    &&& forall|k: int|
        first_item <= k < after.len() ==> placed_item(
            #[trigger] after[k],
            after.take(k),
            room,
            map,
            level,
        )
}

/// Whether `after` is `before` with a room's population added at the end:
/// monsters and then items, of each at most as many as `level` allows.
pub open spec fn populated(
    before: Seq<Entity>,
    after: Seq<Entity>,
    room: Rect,
    map: Seq<Seq<Tile>>,
    level: u32,
) -> bool {
    exists|first_item: int| #[trigger] populated_from(before, after, room, map, level, first_item)
}

/// A room's population is placed in the room, object by object, and holds
/// no more than the two limits together.
pub proof fn lemma_populated(
    before: Seq<Entity>,
    after: Seq<Entity>,
    room: Rect,
    map: Seq<Seq<Tile>>,
    level: u32,
)
    requires
        populated(before, after, room, map, level),
    ensures
        before.len() <= after.len() <= before.len() + monster_limit(level) + item_limit(level),
        after.take(before.len() as int) == before,
        forall|k: int|
            before.len() <= k < after.len() ==> placed_in(
                #[trigger] after[k],
                after.take(k),
                room,
                map,
                level,
            ),
{
    let first_item = choose|first_item: int| #[trigger]
        populated_from(before, after, room, map, level, first_item);
    assert forall|k: int| before.len() <= k < after.len() implies placed_in(
        #[trigger] after[k],
        after.take(k),
        room,
        map,
        level,
    ) by {
        if k < first_item {
            assert(placed_monster(after[k], after.take(k), room, level));
        } else {
            assert(placed_item(after[k], after.take(k), room, map, level));
        }
    }
}

/// In a room's population the monsters are the objects that fight and the
/// items are those that do not: so at most as many of the added objects
/// fight as the level allows monsters, and at most as many are items as it
/// allows items.
pub proof fn lemma_population_kinds(
    before: Seq<Entity>,
    after: Seq<Entity>,
    room: Rect,
    map: Seq<Seq<Tile>>,
    level: u32,
    first_item: int,
)
    requires
        populated_from(before, after, room, map, level, first_item),
    ensures
        first_item - before.len() <= monster_limit(level),
        after.len() - first_item <= item_limit(level),
        forall|k: int|
            before.len() <= k < first_item ==> (#[trigger] after[k]).fighter is Some
                && after[k].item is None,
        forall|k: int|
            first_item <= k < after.len() ==> (#[trigger] after[k]).item is Some
                && after[k].fighter is None,
{
    assert forall|k: int| before.len() <= k < first_item implies (
    #[trigger] after[k]).fighter is Some && after[k].item is None by {
        assert(placed_monster(after[k], after.take(k), room, level));
    }
    assert forall|k: int| first_item <= k < after.len() implies (#[trigger] after[k]).item is Some
        && after[k].fighter is None by {
        assert(placed_item(after[k], after.take(k), room, map, level));
    }
}

/// The objects after a monster is put into `room`: one of the kind at
/// `index` of the monster weights, on the free cell at `pick`; nothing
/// where the room has no free cell at `pick`.
pub open spec fn with_monster(objects: Seq<Entity>, room: Rect, pick: int, index: int) -> Seq<
    Entity,
> {
    let cells = free_in(room, objects);
    if 0 <= pick < cells.len() {
        objects.push(monster(monster_at(index), cells[pick].0, cells[pick].1))
    } else {
        objects
    }
}

/// The objects after an item is put into `room`: one of the kind at `index`
/// of the item weights, on the free cell at `pick`; nothing where the room
/// has no free cell at `pick`, nor where the tile of that cell is blocked.
pub open spec fn with_item(
    objects: Seq<Entity>,
    room: Rect,
    map: Seq<Seq<Tile>>,
    pick: int,
    index: int,
) -> Seq<Entity> {
    let cells = free_in(room, objects);
    if 0 <= pick < cells.len() && !blocked(
        map,
        objects,
        cells[pick].0 as int,
        cells[pick].1 as int,
    ) {
        objects.push(item_on_floor(item_at(index), cells[pick].0, cells[pick].1))
    } else {
        objects
    }
}

/// Puts a monster into `room`, with the numbers that were drawn for it: it
/// is of the kind at `index` of the monster weights and stands on the free
/// cell at `pick`, whatever the tile of that cell is. Where the room has no
/// free cell at `pick`, nothing is put.
pub fn place_monster(room: Rect, objects: &mut Vec<GameObject>, pick: usize, index: usize)
    requires
        room.on_grid(),
    ensures
        entities(final(objects)@) == with_monster(
            entities(old(objects)@),
            room,
            pick as int,
            index as int,
        ),
{
    let cells = free_cells(room, objects);
    if pick < cells.len() {
        let new_monster = spawn_monster(monster_kind(index), cells[pick].0, cells[pick].1);
        objects.push(new_monster);
        assert(entities(objects@) =~= entities(old(objects)@).push(new_monster@));
    }
}

/// Puts an item into `room`, with the numbers that were drawn for it: it
/// is of the kind at `index` of the item weights and lies on the free cell
/// at `pick`, if the tile of that cell is not blocked. Where the room has
/// no free cell at `pick`, nothing is put.
pub fn place_item(
    room: Rect,
    map: &TileMap,
    objects: &mut Vec<GameObject>,
    pick: usize,
    index: usize,
)
    requires
        room.on_grid(),
        grid_ok(tiles(map@)),
    ensures
        entities(final(objects)@) == with_item(
            entities(old(objects)@),
            room,
            tiles(map@),
            pick as int,
            index as int,
        ),
{
    let cells = free_cells(room, objects);
    if pick < cells.len() {
        let x: i32 = cells[pick].0;
        let y: i32 = cells[pick].1;
        assert(room.holds(x as int, y as int));
        if !is_blocked(x, y, map, objects) {
            let new_item = spawn_item(item_kind(index), x, y);
            objects.push(new_item);
            assert(entities(objects@) =~= entities(old(objects)@).push(new_item@));
        }
    }
}

/// Puts monsters and items into `room`: first monsters, then items, of
/// each up to the limit of `level`; how many and of which kinds is drawn at
/// random, and each comes on a cell inside the room that is drawn among
/// those where no object is. A monster is put there whatever the tile is;
/// an item only where the tile is not blocked. A draw that finds no free
/// cell places nothing.
pub fn place_objects(room: Rect, map: &TileMap, objects: &mut Vec<GameObject>, level: u32)
    requires
        room.on_grid(),
        grid_ok(tiles(map@)),
    ensures
        populated(entities(old(objects)@), entities(final(objects)@), room, tiles(map@), level),
{
    let ghost before = entities(objects@);
    let monsters_cap: i32 = max_monsters(level) as i32;
    let num_monsters: i32 = random_in_range(0, monsters_cap + 1);
    let mut round: i32 = 0;
    while round < num_monsters
        invariant
            room.on_grid(),
            0 <= round <= num_monsters <= monster_limit(level),
            before.len() <= objects.len() <= before.len() + round,
            entities(objects@).take(before.len() as int) == before,
            forall|k: int|
                before.len() <= k < objects.len() ==> placed_monster(
                    #[trigger] entities(objects@)[k],
                    entities(objects@).take(k),
                    room,
                    level,
                ),
        decreases num_monsters - round,
    {
        let free = free_cells(room, objects);
        if free.len() > 0 {
            let pick: usize = random_in_range(0, free.len() as i32) as usize;
            let weights = monster_chances(level);
            proof {
                lemma_total_weight(weights@, 80);
                assert(weights@[0] == 80);
            }
            let index = weighted_index(&weights);
            let ghost earlier = entities(objects@);
            place_monster(room, objects, pick, index);
            proof {
                let now = entities(objects@);
                let added = monster(
                    monster_at(index as int),
                    free[pick as int].0,
                    free[pick as int].1,
                );
                assert(now == earlier.push(added));
                assert(now.take(before.len() as int) =~= earlier.take(before.len() as int));
                assert(now.take(earlier.len() as int) =~= earlier);
                assert(monster_weight(monster_at(index as int), level) > 0);
                assert(is_monster_spawn(added, level));
                assert forall|k: int| before.len() <= k < now.len() implies placed_monster(
                    #[trigger] now[k],
                    now.take(k),
                    room,
                    level,
                ) by {
                    if k < earlier.len() {
                        assert(now.take(k) =~= earlier.take(k));
                        assert(now[k] == earlier[k]);
                    }
                }
            }
        }
        round += 1;
    }
    let ghost first_item = objects.len() as int;
    let items_cap: i32 = max_items(level) as i32;
    let num_items: i32 = random_in_range(0, items_cap + 1);
    let mut round: i32 = 0;
    while round < num_items
        invariant
            room.on_grid(),
            grid_ok(tiles(map@)),
            0 <= round <= num_items <= item_limit(level),
            before.len() <= first_item <= before.len() + monster_limit(level),
            first_item <= objects.len() <= first_item + round,
            entities(objects@).take(before.len() as int) == before,
            forall|k: int|
                before.len() <= k < first_item ==> placed_monster(
                    #[trigger] entities(objects@)[k],
                    entities(objects@).take(k),
                    room,
                    level,
                ),
            forall|k: int|
                first_item <= k < objects.len() ==> placed_item(
                    #[trigger] entities(objects@)[k],
                    entities(objects@).take(k),
                    room,
                    tiles(map@),
                    level,
                ),
        decreases num_items - round,
    {
        let free = free_cells(room, objects);
        if free.len() > 0 {
            let pick: usize = random_in_range(0, free.len() as i32) as usize;
            let weights = item_chances(level);
            proof {
                lemma_total_weight(weights@, 35);
                assert(weights@[0] == 35);
            }
            let index = weighted_index(&weights);
            let ghost earlier = entities(objects@);
            place_item(room, map, objects, pick, index);
            proof {
                let now = entities(objects@);
                let added = item_on_floor(
                    item_at(index as int),
                    free[pick as int].0,
                    free[pick as int].1,
                );
                assert(now == earlier || now == earlier.push(added));
                assert(item_weight(item_at(index as int), level) > 0);
                assert(is_item_spawn(added, level));
                if now != earlier {
                    assert(now.take(before.len() as int) =~= earlier.take(before.len() as int));
                    assert(now.take(earlier.len() as int) =~= earlier);
                    assert forall|k: int| before.len() <= k < first_item implies placed_monster(
                        #[trigger] now[k],
                        now.take(k),
                        room,
                        level,
                    ) by {
                        assert(now.take(k) =~= earlier.take(k));
                        assert(now[k] == earlier[k]);
                    }
                    assert forall|k: int| first_item <= k < now.len() implies placed_item(
                        #[trigger] now[k],
                        now.take(k),
                        room,
                        tiles(map@),
                        level,
                    ) by {
                        if k < earlier.len() {
                            assert(now.take(k) =~= earlier.take(k));
                            assert(now[k] == earlier[k]);
                        }
                    }
                }
            }
        }
        round += 1;
    }
    assert(populated_from(
        before,
        entities(objects@),
        room,
        tiles(map@),
        level,
        first_item,
    ));
}

} // verus!
