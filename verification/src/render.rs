//! What the screen shows: the lines of the menus, the letter that picks one,
//! the colours of the tiles, which objects are drawn and in which order.

use vstd::prelude::*;
use vstd::string::*;
use crate::color::Color;
use crate::combat::{Stat, effective, fits};
use crate::constants::{LEVEL_UP_BASE, LEVEL_UP_FACTOR, PLAYER};
use crate::dungeon::{grid_ok, on_grid};
use crate::entity::{Entity, Game, GameObject, TileMap, entities, tiles};
use crate::fov::FovMap;
use crate::items::slot_name;
use crate::player::{level_up_xp, xp_of};
use crate::text::{append_decimal, decimal};
use crate::tile::Tile;

verus! {

/// How many lines a menu holds at most: one for each letter.
pub const MENU_LETTERS: usize = 26;

/// The place in the alphabet of a letter, capital or small, counted from
/// zero; none for any other character.
pub open spec fn letter_index(c: char) -> Option<int> {
    if 'a' <= c <= 'z' {
        Some(c as int - 'a' as int)
    } else if 'A' <= c <= 'Z' {
        Some(c as int - 'A' as int)
    } else {
        None
    }
}

/// The line of a menu that a key picks: the one with the key's letter, if
/// the menu has that many lines.
pub open spec fn picked(printable: char, options: int) -> Option<usize> {
    match letter_index(printable) {
        Some(index) => if index < options {
            Some(index as usize)
        } else {
            None
        },
        None => None,
    }
}

/// The line of a menu of `options` lines that the key with the character
/// `printable` picks.
pub fn menu_choice(printable: char, options: usize) -> (choice: Option<usize>)
    requires
        options <= MENU_LETTERS,
    ensures
        choice == picked(printable, options as int),
{
    let code: u32 = printable as u32;
    let index: usize = if code >= 97 && code <= 122 {
        (code - 97) as usize
    } else if code >= 65 && code <= 90 {
        (code - 65) as usize
    } else {
        return None;
    };
    if index < options {
        Some(index)
    } else {
        None
    }
}

/// The letter of the line at `index`, in brackets.
pub open spec fn letter_tag(index: int) -> Seq<char> {
    seq!['(', (('a' as int + index) as u8) as char, ')', ' ']
}

/// The line of a menu at `index` with its letter before it.
pub open spec fn menu_entry(index: int, text: Seq<char>) -> Seq<char> {
    letter_tag(index) + text
}

fn letter_text(index: usize) -> (s: &'static str)
    requires
        index < MENU_LETTERS,
    ensures
        s@ == letter_tag(index as int),
{
    proof {
        reveal_strlit("(a) ");
        reveal_strlit("(b) ");
        reveal_strlit("(c) ");
        reveal_strlit("(d) ");
        reveal_strlit("(e) ");
        reveal_strlit("(f) ");
        reveal_strlit("(g) ");
        reveal_strlit("(h) ");
        reveal_strlit("(i) ");
        reveal_strlit("(j) ");
        reveal_strlit("(k) ");
        reveal_strlit("(l) ");
        reveal_strlit("(m) ");
        reveal_strlit("(n) ");
        reveal_strlit("(o) ");
        reveal_strlit("(p) ");
        reveal_strlit("(q) ");
        reveal_strlit("(r) ");
        reveal_strlit("(s) ");
        reveal_strlit("(t) ");
        reveal_strlit("(u) ");
        reveal_strlit("(v) ");
        reveal_strlit("(w) ");
        reveal_strlit("(x) ");
        reveal_strlit("(y) ");
        reveal_strlit("(z) ");
    }
    let s = match index {
        0 => "(a) ",
        1 => "(b) ",
        2 => "(c) ",
        3 => "(d) ",
        4 => "(e) ",
        5 => "(f) ",
        6 => "(g) ",
        7 => "(h) ",
        8 => "(i) ",
        9 => "(j) ",
        10 => "(k) ",
        11 => "(l) ",
        12 => "(m) ",
        13 => "(n) ",
        14 => "(o) ",
        15 => "(p) ",
        16 => "(q) ",
        17 => "(r) ",
        18 => "(s) ",
        19 => "(t) ",
        20 => "(u) ",
        21 => "(v) ",
        22 => "(w) ",
        23 => "(x) ",
        24 => "(y) ",
        _ => "(z) ",
    };
    assert(s@ =~= letter_tag(index as int));
    s
}

/// The line of a menu at `index` with its letter before it.
pub fn menu_line(index: usize, text: &str) -> (line: String)
    requires
        index < MENU_LETTERS,
    ensures
        line@ == menu_entry(index as int, text@),
{
    let mut line = String::from_str(letter_text(index));
    line.append(text);
    line
}

/// The line of the inventory menu for an item: its name, and where it is
/// worn if it is.
pub open spec fn inventory_entry(item: Entity) -> Seq<char> {
    match item.equipment {
        Some(equipment) => if equipment.equipped {
            item.name + " (on "@ + slot_name(equipment.slot) + ")"@
        } else {
            item.name
        },
        None => item.name,
    }
}

/// The lines of the inventory menu: one for each item, or one that says
/// that there is none.
pub open spec fn inventory_entries(inventory: Seq<Entity>) -> Seq<Seq<char>> {
    if inventory.len() == 0 {
        seq!["Inventory is empty."@]
    } else {
        inventory.map_values(|item: Entity| inventory_entry(item))
    }
}

/// The texts of a list of strings.
pub open spec fn texts(strings: Seq<String>) -> Seq<Seq<char>> {
    strings.map_values(|s: String| s@)
}

/// The lines of the inventory menu.
pub fn inventory_options(game: &Game) -> (options: Vec<String>)
    ensures
        texts(options@) == inventory_entries(game@.inventory),
{
    let mut options: Vec<String> = Vec::new();
    if game.inventory.len() == 0 {
        options.push(String::from_str("Inventory is empty."));
        assert(texts(options@) =~= inventory_entries(game@.inventory));
        return options;
    }
    let mut i: usize = 0;
    while i < game.inventory.len()
        invariant
            i <= game.inventory.len(),
            options.len() == i,
            forall|k: int|
                0 <= k < i ==> (#[trigger] options[k])@ == inventory_entry(game@.inventory[k]),
        decreases game.inventory.len() - i,
    {
        assert(game@.inventory[i as int] == game.inventory[i as int]@);
        let mut text = game.inventory[i].name.clone();
        if let Some(equipment) = game.inventory[i].equipment {
            if equipment.equipped {
                text.append(" (on ");
                text.append(equipment.slot.text());
                text.append(")");
            }
        }
        options.push(text);
        i += 1;
    }
    assert(texts(options@) =~= inventory_entries(game@.inventory));
    options
}

/// The item that the inventory menu picked: the line that was picked,
/// unless the inventory is empty.
pub fn inventory_choice(game: &Game, picked_line: Option<usize>) -> (choice: Option<usize>)
    ensures
        choice == if game@.inventory.len() > 0 {
            picked_line
        } else {
            None
        },
{
    if game.inventory.len() != 0 {
        picked_line
    } else {
        None
    }
}

/// The colour of a wall that is not seen.
pub open spec fn spec_color_dark_wall() -> Color {
    Color { r: 0, g: 0, b: 100 }
}

/// The colour of a wall that is seen.
pub open spec fn spec_color_light_wall() -> Color {
    Color { r: 130, g: 110, b: 50 }
}

/// The colour of floor that is not seen.
pub open spec fn spec_color_dark_ground() -> Color {
    Color { r: 50, g: 50, b: 150 }
}

/// The colour of floor that is seen.
pub open spec fn spec_color_light_ground() -> Color {
    Color { r: 200, g: 180, b: 50 }
}

/// The background colour of a tile: by whether it is seen and whether it
/// is a wall.
pub open spec fn spec_tile_color(visible: bool, is_wall: bool) -> Color {
    match (visible, is_wall) {
        (false, true) => spec_color_dark_wall(),
        (false, false) => spec_color_dark_ground(),
        (true, true) => spec_color_light_wall(),
        (true, false) => spec_color_light_ground(),
    }
}

/// The background colour of a tile.
#[verifier::when_used_as_spec(spec_tile_color)]
pub fn tile_color(visible: bool, is_wall: bool) -> (color: Color)
    ensures
        color == spec_tile_color(visible, is_wall),
{
    match (visible, is_wall) {
        (false, true) => Color { r: 0, g: 0, b: 100 },
        (false, false) => Color { r: 50, g: 50, b: 150 },
        (true, true) => Color { r: 130, g: 110, b: 50 },
        (true, false) => Color { r: 200, g: 180, b: 50 },
    }
}

/// The tile after the player has looked around: one that is seen is
/// explored from then on.
pub open spec fn seen_tile(tile: Tile, visible: bool) -> Tile {
    if visible {
        Tile { explored: true, ..tile }
    } else {
        tile
    }
}

/// Marks every tile that is seen as explored.
pub fn explore(map: &mut TileMap, fov: &FovMap)
    requires
        grid_ok(tiles(old(map)@)),
    ensures
        grid_ok(tiles(final(map)@)),
        forall|x: int, y: int|
            on_grid(x, y) ==> #[trigger] tiles(final(map)@)[x][y] == seen_tile(
                tiles(old(map)@)[x][y],
                fov.sees(x, y),
            ),
{
    let ghost before = tiles(map@);
    let mut x: usize = 0;
    while x < map.len()
        invariant
            grid_ok(before),
            grid_ok(tiles(map@)),
            x <= map.len(),
            forall|cx: int, cy: int|
                on_grid(cx, cy) ==> #[trigger] tiles(map@)[cx][cy] == if cx < x {
                    seen_tile(before[cx][cy], fov.sees(cx, cy))
                } else {
                    before[cx][cy]
                },
        decreases map.len() - x,
    {
        assert(tiles(map@)[x as int] == map@[x as int]@);
        let mut y: usize = 0;
        while y < map[x].len()
            invariant
                grid_ok(before),
                grid_ok(tiles(map@)),
                x < map.len(),
                y <= map[x as int].len(),
                forall|cx: int, cy: int|
                    on_grid(cx, cy) ==> #[trigger] tiles(map@)[cx][cy] == if cx < x || (cx == x
                        && cy < y) {
                        seen_tile(before[cx][cy], fov.sees(cx, cy))
                    } else {
                        before[cx][cy]
                    },
            decreases map[x as int].len() - y,
        {
            let ghost earlier = tiles(map@);
            assert(earlier[x as int] == map@[x as int]@);
            if fov.is_in_fov(x as i32, y as i32) {
                map[x][y].explored = true;
            }
            proof {
                let now = tiles(map@);
                assert(now[x as int] == map@[x as int]@);
                assert forall|cx: int| 0 <= cx < map.len() implies (#[trigger] now[cx]).len()
                    == earlier[cx].len() by {
                    assert(now[cx] == map@[cx]@);
                }
                assert forall|cx: int, cy: int| on_grid(cx, cy) implies #[trigger] now[cx][cy]
                    == if cx < x || (cx == x && cy < y + 1) {
                    seen_tile(before[cx][cy], fov.sees(cx, cy))
                } else {
                    before[cx][cy]
                } by {
                    assert(earlier[cx][cy] == if cx < x || (cx == x && cy < y) {
                        seen_tile(before[cx][cy], fov.sees(cx, cy))
                    } else {
                        before[cx][cy]
                    });
                    assert(now[cx] == map@[cx]@);
                }
            }
            y += 1;
        }
        x += 1;
    }
}

/// Whether the entity is drawn: it stands on a cell that is seen, or it is
/// one that stays visible and its cell was explored.
pub open spec fn is_drawn(e: Entity, map: Seq<Seq<Tile>>, fov: FovMap) -> bool {
    fov.sees(e.x as int, e.y as int) || (e.always_visible && map[e.x as int][e.y as int].explored)
}

/// The places of the objects that are drawn and that block, or that do
/// not, in the order of the objects.
pub open spec fn layer(objects: Seq<Entity>, map: Seq<Seq<Tile>>, fov: FovMap, blocks: bool) -> Seq<
    usize,
>
    decreases objects.len(),
{
    if objects.len() == 0 {
        seq![]
    } else if is_drawn(objects.last(), map, fov) && objects.last().blocks == blocks {
        layer(objects.drop_last(), map, fov, blocks).push((objects.len() - 1) as usize)
    } else {
        layer(objects.drop_last(), map, fov, blocks)
    }
}

/// Whether every entity stands on the grid.
pub open spec fn all_on_grid(objects: Seq<Entity>) -> bool {
    forall|i: int|
        0 <= i < objects.len() ==> on_grid(
            (#[trigger] objects[i]).x as int,
            objects[i].y as int,
        )
}

fn collect_layer(
    objects: &Vec<GameObject>,
    map: &TileMap,
    fov: &FovMap,
    blocks: bool,
    out: &mut Vec<usize>,
)
    requires
        grid_ok(tiles(map@)),
        all_on_grid(entities(objects@)),
    ensures
        final(out)@ == old(out)@ + layer(entities(objects@), tiles(map@), *fov, blocks),
{
    let ghost all = entities(objects@);
    let mut i: usize = 0;
    assert(all.take(0) =~= Seq::<Entity>::empty());
    assert(out@ =~= old(out)@ + layer(all.take(0), tiles(map@), *fov, blocks));
    while i < objects.len()
        invariant
            i <= objects.len(),
            all == entities(objects@),
            grid_ok(tiles(map@)),
            all_on_grid(all),
            out@ == old(out)@ + layer(all.take(i as int), tiles(map@), *fov, blocks),
        decreases objects.len() - i,
    {
        proof {
            assert(all[i as int] == objects[i as int]@);
            assert(all.take(i + 1).drop_last() =~= all.take(i as int));
            assert(all.take(i + 1).last() == all[i as int]);
            assert(tiles(map@)[objects[i as int].x as int] == map@[objects[i as int].x as int]@);
        }
        let o = &objects[i];
        if o.blocks == blocks && (fov.is_in_fov(o.x, o.y) || (o.always_visible && map[o.x
            as usize][o.y as usize].explored)) {
            out.push(i);
        }
        assert(out@ =~= old(out)@ + layer(all.take(i + 1), tiles(map@), *fov, blocks));
        i += 1;
    }
    assert(all.take(i as int) =~= all);
}

/// The places of the objects to draw, in the order of drawing: those that
/// are drawn and do not block, then those that are drawn and block, each
/// group in the order of the objects.
pub fn draw_order(objects: &Vec<GameObject>, map: &TileMap, fov: &FovMap) -> (order: Vec<usize>)
    requires
        grid_ok(tiles(map@)),
        all_on_grid(entities(objects@)),
    ensures
        order@ == layer(entities(objects@), tiles(map@), *fov, false) + layer(
            entities(objects@),
            tiles(map@),
            *fov,
            true,
        ),
{
    let mut order: Vec<usize> = Vec::new();
    collect_layer(objects, map, fov, false, &mut order);
    collect_layer(objects, map, fov, true, &mut order);
    order
}

/// Whether the name of the entity is shown for the cell `(x, y)`: it
/// stands there and the cell is seen.
pub open spec fn is_named_at(e: Entity, x: int, y: int, fov: FovMap) -> bool {
    e.x == x && e.y == y && fov.sees(x, y)
}

/// The names that are shown for the cell `(x, y)`, joined by commas, in
/// the order of the objects.
pub open spec fn names_at(objects: Seq<Entity>, x: int, y: int, fov: FovMap) -> Seq<char>
    decreases objects.len(),
{
    if objects.len() == 0 {
        seq![]
    } else if !is_named_at(objects.last(), x, y, fov) {
        names_at(objects.drop_last(), x, y, fov)
    } else if any_named_at(objects.drop_last(), x, y, fov) {
        names_at(objects.drop_last(), x, y, fov) + ", "@ + objects.last().name
    } else {
        objects.last().name
    }
}

/// Whether a name is shown for the cell `(x, y)`.
pub open spec fn any_named_at(objects: Seq<Entity>, x: int, y: int, fov: FovMap) -> bool {
    exists|i: int| 0 <= i < objects.len() && is_named_at(#[trigger] objects[i], x, y, fov)
}

/// The names of the objects under the pointer, which is on the cell
/// `(x, y)`, joined by commas.
pub fn get_names_under_mouse(x: i32, y: i32, objects: &Vec<GameObject>, fov: &FovMap) -> (names:
    String)
    ensures
        names@ == names_at(entities(objects@), x as int, y as int, *fov),
{
    let ghost all = entities(objects@);
    let mut names = String::new();
    let mut any = false;
    let seen = fov.is_in_fov(x, y);
    let mut i: usize = 0;
    assert(all.take(0) =~= Seq::<Entity>::empty());
    assert(names@ =~= names_at(all.take(0), x as int, y as int, *fov));
    while i < objects.len()
        invariant
            i <= objects.len(),
            all == entities(objects@),
            seen == fov.sees(x as int, y as int),
            names@ == names_at(all.take(i as int), x as int, y as int, *fov),
            any == any_named_at(all.take(i as int), x as int, y as int, *fov),
            !any ==> names@.len() == 0,
        decreases objects.len() - i,
    {
        let ghost shorter = all.take(i as int);
        let ghost longer = all.take(i + 1);
        proof {
            assert(all[i as int] == objects[i as int]@);
            assert(longer.drop_last() =~= shorter);
            assert(longer.last() == all[i as int]);
        }
        if objects[i].x == x && objects[i].y == y && seen {
            if any {
                names.append(", ");
            }
            names.append(objects[i].name.as_str());
            any = true;
            proof {
                assert(is_named_at(longer[i as int], x as int, y as int, *fov));
                assert(names@ =~= names_at(longer, x as int, y as int, *fov));
            }
        } else {
            proof {
                if any_named_at(longer, x as int, y as int, *fov) {
                    let k = choose|k: int|
                        0 <= k < longer.len() && is_named_at(
                            #[trigger] longer[k],
                            x as int,
                            y as int,
                            *fov,
                        );
                    assert(shorter[k] == longer[k]);
                }
                if any_named_at(shorter, x as int, y as int, *fov) {
                    let k = choose|k: int|
                        0 <= k < shorter.len() && is_named_at(
                            #[trigger] shorter[k],
                            x as int,
                            y as int,
                            *fov,
                        );
                    assert(longer[k] == shorter[k]);
                }
            }
        }
        i += 1;
    }
    assert(all.take(i as int) =~= all);
    names
}

/// The text over the bar of a statistic.
pub open spec fn bar_text(name: Seq<char>, value: int, maximum: int) -> Seq<char> {
    name + ": "@ + decimal(value) + "/"@ + decimal(maximum)
}

/// The text over the bar of a statistic: its name, its value and its most.
pub fn bar_label(name: &str, value: i32, maximum: i32) -> (label: String)
    ensures
        label@ == bar_text(name@, value as int, maximum as int),
{
    let mut label = String::from_str(name);
    label.append(": ");
    append_decimal(&mut label, value as i64);
    label.append("/");
    append_decimal(&mut label, maximum as i64);
    label
}

/// The text of the character sheet.
pub open spec fn sheet_text(player: Entity, inventory: Seq<Entity>) -> Seq<char> {
    "Character Information: \n* Level: "@ + decimal(player.level as int)
        + " \n* Experience: "@ + decimal(xp_of(player)) + " \n* Experience to level up: "@
        + decimal(level_up_xp(player.level as int)) + " \n\n* Maximum HP: "@ + decimal(
        effective(player, inventory, Stat::MaxHp),
    ) + " \n* Attack: "@ + decimal(effective(player, inventory, Stat::Power))
        + " \n* Defense: "@ + decimal(effective(player, inventory, Stat::Defense)) + " \n"@
}

/// The text of the character sheet of the player; none for a player that
/// does not fight.
pub fn character_sheet(objects: &Vec<GameObject>, game: &Game) -> (sheet: Option<String>)
    requires
        objects.len() > PLAYER,
        fits(effective(objects[PLAYER as int]@, game@.inventory, Stat::MaxHp)),
        fits(effective(objects[PLAYER as int]@, game@.inventory, Stat::Power)),
        fits(effective(objects[PLAYER as int]@, game@.inventory, Stat::Defense)),
    ensures
        match sheet {
            Some(text) => objects[PLAYER as int].fighter is Some && text@ == sheet_text(
                objects[PLAYER as int]@,
                game@.inventory,
            ),
            None => objects[PLAYER as int].fighter is None,
        },
{
    let player = &objects[PLAYER];
    let level = player.level;
    let level_up_xp: i64 = LEVEL_UP_BASE as i64 + level as i64 * LEVEL_UP_FACTOR as i64;
    if let Some(fighter) = player.fighter {
        let mut text = String::from_str("Character Information: \n* Level: ");
        append_decimal(&mut text, level as i64);
        text.append(" \n* Experience: ");
        append_decimal(&mut text, fighter.xp as i64);
        text.append(" \n* Experience to level up: ");
        append_decimal(&mut text, level_up_xp);
        text.append(" \n\n* Maximum HP: ");
        append_decimal(&mut text, player.max_hp(game) as i64);
        text.append(" \n* Attack: ");
        append_decimal(&mut text, player.power(game) as i64);
        text.append(" \n* Defense: ");
        append_decimal(&mut text, player.defense(game) as i64);
        text.append(" \n");
        Some(text)
    } else {
        None
    }
}

} // verus!
