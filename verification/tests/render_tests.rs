use rusty_rogues::color::{white, Color};
use rusty_rogues::entity::{DeathCallback, Equipment, Fighter, Game, GameObject, Item, Slot};
use rusty_rogues::fov::FovMap;
use rusty_rogues::render::{
    bar_label, character_sheet, draw_order, explore, get_names_under_mouse, inventory_choice,
    inventory_options, menu_choice, menu_line, tile_color,
};
use rusty_rogues::tile::Tile;

fn game() -> Game {
    Game {
        map: vec![vec![Tile::wall(); 43]; 80],
        log: Vec::new(),
        inventory: Vec::new(),
        dungeon_level: 1,
    }
}

fn gear(name: &str, slot: Slot, equipped: bool) -> GameObject {
    let mut o = GameObject::new(0, 0, '/', name, white(), false);
    o.item = Some(Item::Sword);
    o.equipment =
        Some(Equipment { slot, equipped, power_bonus: 3, defense_bonus: 1, hp_bonus: 5 });
    o
}

#[test]
fn fov_map_starts_dark_and_sets_cells() {
    let mut fov = FovMap::new(80, 43);
    assert!(!fov.is_in_fov(0, 0));
    assert!(!fov.is_in_fov(79, 42));
    fov.set(3, 4, true);
    assert!(fov.is_in_fov(3, 4));
    assert!(!fov.is_in_fov(4, 3));
    fov.set(3, 4, false);
    assert!(!fov.is_in_fov(3, 4));
}

#[test]
fn fov_map_sees_nothing_off_the_map() {
    let mut fov = FovMap::new(80, 43);
    fov.set(-1, 0, true);
    fov.set(80, 0, true);
    fov.set(0, 43, true);
    assert!(!fov.is_in_fov(-1, 0));
    assert!(!fov.is_in_fov(80, 0));
    assert!(!fov.is_in_fov(0, 43));
    assert!(!fov.is_in_fov(0, -1));
}

#[test]
fn menu_choice_by_letter() {
    assert_eq!(menu_choice('a', 3), Some(0));
    assert_eq!(menu_choice('c', 3), Some(2));
    assert_eq!(menu_choice('d', 3), None);
    assert_eq!(menu_choice('B', 3), Some(1));
    assert_eq!(menu_choice('z', 26), Some(25));
    assert_eq!(menu_choice('Z', 26), Some(25));
    assert_eq!(menu_choice('a', 0), None);
}

#[test]
fn menu_choice_of_other_characters_is_none() {
    assert_eq!(menu_choice('1', 26), None);
    assert_eq!(menu_choice(' ', 26), None);
    assert_eq!(menu_choice('\0', 26), None);
    assert_eq!(menu_choice('é', 26), None);
    assert_eq!(menu_choice('`', 26), None);
    assert_eq!(menu_choice('{', 26), None);
    assert_eq!(menu_choice('@', 26), None);
    assert_eq!(menu_choice('[', 26), None);
}

#[test]
fn menu_lines_carry_their_letter() {
    assert_eq!(menu_line(0, "Play a new game"), "(a) Play a new game");
    assert_eq!(menu_line(2, "Quit"), "(c) Quit");
    assert_eq!(menu_line(25, ""), "(z) ");
}

#[test]
fn inventory_options_of_an_empty_inventory() {
    let g = game();
    assert_eq!(inventory_options(&g), vec![String::from("Inventory is empty.")]);
    assert_eq!(inventory_choice(&g, Some(0)), None);
    assert_eq!(inventory_choice(&g, None), None);
}

#[test]
fn inventory_options_show_where_equipment_is_worn() {
    let mut g = game();
    g.inventory.push(gear("Dagger", Slot::LeftHand, true));
    g.inventory.push(gear("Sword", Slot::RightHand, false));
    g.inventory.push(gear("Helmet", Slot::Head, true));
    let mut potion = GameObject::new(0, 0, '!', "Healing Potion", white(), false);
    potion.item = Some(Item::Heal);
    g.inventory.push(potion);
    assert_eq!(
        inventory_options(&g),
        vec![
            String::from("Dagger (on left hand)"),
            String::from("Sword"),
            String::from("Helmet (on head)"),
            String::from("Healing Potion"),
        ]
    );
    assert_eq!(inventory_choice(&g, Some(2)), Some(2));
    assert_eq!(inventory_choice(&g, None), None);
}

#[test]
fn tile_colors() {
    assert_eq!(tile_color(false, true), Color { r: 0, g: 0, b: 100 });
    assert_eq!(tile_color(false, false), Color { r: 50, g: 50, b: 150 });
    assert_eq!(tile_color(true, true), Color { r: 130, g: 110, b: 50 });
    assert_eq!(tile_color(true, false), Color { r: 200, g: 180, b: 50 });
}

#[test]
fn explore_marks_what_is_seen_and_forgets_nothing() {
    let mut map = vec![vec![Tile::wall(); 43]; 80];
    map[4][4] = Tile::empty();
    map[7][7].explored = true;
    let mut fov = FovMap::new(80, 43);
    fov.set(4, 4, true);
    fov.set(4, 5, true);
    explore(&mut map, &fov);
    for x in 0..80 {
        for y in 0..43 {
            let expected = (x == 4 && (y == 4 || y == 5)) || (x == 7 && y == 7);
            assert_eq!(map[x][y].explored, expected);
        }
    }
    assert!(!map[4][4].blocked);
    assert!(map[4][5].blocked);
    let dark = FovMap::new(80, 43);
    explore(&mut map, &dark);
    assert!(map[4][4].explored && map[4][5].explored && map[7][7].explored);
}

#[test]
fn draw_order_puts_what_blocks_last() {
    let mut map = vec![vec![Tile::wall(); 43]; 80];
    map[9][9].explored = true;
    let mut fov = FovMap::new(80, 43);
    fov.set(5, 5, true);
    fov.set(6, 5, true);
    let mut stairs = GameObject::new(9, 9, '<', "stairs", white(), false);
    stairs.always_visible = true;
    let mut hidden_stairs = GameObject::new(10, 10, '<', "stairs", white(), false);
    hidden_stairs.always_visible = true;
    let objects = vec![
        GameObject::new(5, 5, '@', "Player", white(), true),
        GameObject::new(5, 5, '!', "potion", white(), false),
        GameObject::new(6, 5, 'o', "Orc", white(), true),
        GameObject::new(20, 20, 'o', "Orc out of sight", white(), true),
        stairs,
        hidden_stairs,
        GameObject::new(9, 9, '%', "remains on explored floor", white(), false),
        GameObject::new(6, 5, '#', "scroll", white(), false),
    ];
    assert_eq!(draw_order(&objects, &map, &fov), vec![1, 4, 7, 0, 2]);
}

#[test]
fn names_under_the_pointer() {
    let mut fov = FovMap::new(80, 43);
    fov.set(5, 5, true);
    let objects = vec![
        GameObject::new(5, 5, '@', "Player", white(), true),
        GameObject::new(6, 5, 'o', "Orc", white(), true),
        GameObject::new(5, 5, '!', "Healing Potion", white(), false),
        GameObject::new(5, 5, '#', "Scroll of Fireball", white(), false),
    ];
    assert_eq!(
        get_names_under_mouse(5, 5, &objects, &fov),
        "Player, Healing Potion, Scroll of Fireball"
    );
    assert_eq!(get_names_under_mouse(6, 5, &objects, &fov), "");
    assert_eq!(get_names_under_mouse(7, 7, &objects, &fov), "");
    fov.set(6, 5, true);
    assert_eq!(get_names_under_mouse(6, 5, &objects, &fov), "Orc");
}

#[test]
fn bar_labels() {
    assert_eq!(bar_label("HP", 30, 100), "HP: 30/100");
    assert_eq!(bar_label("HP", -2, 0), "HP: -2/0");
}

#[test]
fn character_sheet_lists_the_statistics() {
    let mut g = game();
    g.inventory.push(gear("Dagger", Slot::LeftHand, true));
    let mut p = GameObject::new(5, 5, '@', "Player", white(), true);
    p.level = 2;
    p.fighter = Some(Fighter {
        base_max_hp: 100,
        hp: 40,
        base_defense: 1,
        base_power: 2,
        on_death: DeathCallback::Player,
        xp: 77,
    });
    let objects = vec![p];
    assert_eq!(
        character_sheet(&objects, &g),
        Some(String::from(
            "Character Information: \n* Level: 2 \n* Experience: 77 \n* Experience to level up: 500 \n\n* Maximum HP: 105 \n* Attack: 5 \n* Defense: 2 \n"
        ))
    );
}

#[test]
fn character_sheet_of_a_player_that_does_not_fight_is_none() {
    let g = game();
    let objects = vec![GameObject::new(5, 5, '@', "Player", white(), true)];
    assert_eq!(character_sheet(&objects, &g), None);
}
