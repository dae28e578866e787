use rusty_rogues::color::{light_blue, light_cyan, light_green, light_violet, orange, red, white};
use rusty_rogues::entity::{Ai, DeathCallback, Fighter, Game, GameObject, Item};
use rusty_rogues::fov::FovMap;
use rusty_rogues::items::{use_item, UseResult};
use rusty_rogues::spell_effects::{
    cast_confuse, cast_fireball, cast_heal, cast_lightning, strike, take_aim, Aim, Target,
};

fn game() -> Game {
    Game { map: Vec::new(), log: Vec::new(), inventory: Vec::new(), dungeon_level: 1 }
}

fn hero(x: i32, y: i32) -> GameObject {
    let mut o = GameObject::new(x, y, '@', "Player", white(), true);
    o.alive = true;
    o.fighter = Some(Fighter {
        base_max_hp: 100,
        hp: 100,
        base_defense: 1,
        base_power: 2,
        on_death: DeathCallback::Player,
        xp: 0,
    });
    o
}

fn monster(name: &str, x: i32, y: i32, hp: i32, xp: i32) -> GameObject {
    let mut o = GameObject::new(x, y, 'o', name, white(), true);
    o.alive = true;
    o.fighter = Some(Fighter {
        base_max_hp: hp,
        hp,
        base_defense: 0,
        base_power: 4,
        on_death: DeathCallback::Monster,
        xp,
    });
    o.ai = Some(Ai::Basic);
    o
}

fn scroll(kind: Item) -> GameObject {
    let mut o = GameObject::new(0, 0, '#', "scroll", white(), false);
    o.item = Some(kind);
    o
}

fn all_seen() -> FovMap {
    let mut fov = FovMap::new(80, 43);
    for x in 0..80 {
        for y in 0..43 {
            fov.set(x, y, true);
        }
    }
    fov
}

#[test]
fn heal_at_full_health_cancels() {
    let mut g = game();
    let mut objects = vec![hero(5, 5)];
    assert_eq!(cast_heal(0, &mut objects, &mut g), UseResult::Cancelled);
    assert_eq!(objects[0].fighter.unwrap().hp, 100);
    assert_eq!(g.log, vec![(String::from("You are already at full health."), red())]);
}

#[test]
fn heal_restores_forty_hit_points() {
    let mut g = game();
    let mut objects = vec![hero(5, 5)];
    objects[0].fighter.as_mut().unwrap().hp = 10;
    assert_eq!(cast_heal(0, &mut objects, &mut g), UseResult::UsedUp);
    assert_eq!(objects[0].fighter.unwrap().hp, 50);
    assert_eq!(g.log, vec![(String::from("Your wounds start to close up!"), light_violet())]);
}

#[test]
fn heal_never_goes_over_the_most() {
    let mut g = game();
    let mut objects = vec![hero(5, 5)];
    objects[0].fighter.as_mut().unwrap().hp = 99;
    assert_eq!(cast_heal(0, &mut objects, &mut g), UseResult::UsedUp);
    assert_eq!(objects[0].fighter.unwrap().hp, 100);
}

#[test]
fn heal_at_the_largest_maximum_cancels() {
    let mut g = game();
    let mut objects = vec![hero(5, 5)];
    objects[0].fighter.as_mut().unwrap().base_max_hp = i32::MAX;
    objects[0].fighter.as_mut().unwrap().hp = i32::MAX;
    assert!(rusty_rogues::spell_effects::heal_is_safe(&objects, &g));
    assert_eq!(cast_heal(0, &mut objects, &mut g), UseResult::Cancelled);
    assert_eq!(objects[0].fighter.unwrap().hp, i32::MAX);
    assert_eq!(g.log, vec![(String::from("You are already at full health."), red())]);
    objects[0].fighter.as_mut().unwrap().hp = i32::MAX - 1;
    assert!(!rusty_rogues::spell_effects::heal_is_safe(&objects, &g));
}

#[test]
fn heal_leaves_everything_else_as_it_is() {
    let mut g = game();
    let mut objects = vec![hero(5, 5), monster("Orc", 6, 5, 20, 35)];
    objects[0].fighter.as_mut().unwrap().hp = 70;
    objects[1].fighter.as_mut().unwrap().hp = 3;
    assert_eq!(cast_heal(0, &mut objects, &mut g), UseResult::UsedUp);
    assert_eq!(objects[0].fighter.unwrap().hp, 100);
    assert_eq!(objects[0].pos(), (5, 5));
    assert_eq!(objects[1].fighter.unwrap().hp, 3);
    assert_eq!(objects[1].pos(), (6, 5));
    assert!(g.inventory.is_empty());
}

#[test]
fn heal_without_fighter_cancels_silently() {
    let mut g = game();
    let mut objects = vec![GameObject::new(0, 0, '@', "Player", white(), true)];
    assert_eq!(cast_heal(0, &mut objects, &mut g), UseResult::Cancelled);
    assert!(g.log.is_empty());
}

#[test]
fn strike_credits_the_player_with_a_kill() {
    let mut g = game();
    let mut objects = vec![hero(5, 5), monster("Orc", 6, 5, 20, 35)];
    strike(1, 20, &mut objects, &mut g);
    assert_eq!(objects[1].name, "Remains of Orc");
    assert_eq!(objects[0].fighter.unwrap().xp, 35);
    assert_eq!(
        g.log,
        vec![(String::from("Orc is dead! You gain 35 experience points."), orange())]
    );
}

#[test]
fn lightning_strikes_the_nearest_monster_in_sight() {
    let mut g = game();
    let fov = all_seen();
    let mut objects = vec![
        hero(5, 5),
        monster("Far", 9, 5, 50, 10),
        monster("Near", 5, 7, 50, 10),
        monster("Middle", 8, 5, 50, 10),
    ];
    assert_eq!(cast_lightning(0, &mut objects, &mut g, &fov), UseResult::UsedUp);
    assert_eq!(objects[1].fighter.unwrap().hp, 50);
    assert_eq!(objects[2].fighter.unwrap().hp, 10);
    assert_eq!(objects[3].fighter.unwrap().hp, 50);
    assert_eq!(
        g.log,
        vec![(
            String::from(
                "A lightning bolt strikes the Near with a loud thunder! \n The damage is 40 hit points "
            ),
            light_blue()
        )]
    );
}

#[test]
fn lightning_between_two_equally_near_takes_the_first() {
    for _ in 0..5 {
        let mut g = game();
        let fov = all_seen();
        let mut objects = vec![
            hero(5, 5),
            monster("East", 7, 5, 50, 10),
            monster("South", 5, 7, 50, 10),
            monster("West", 3, 5, 50, 10),
        ];
        assert_eq!(cast_lightning(0, &mut objects, &mut g, &fov), UseResult::UsedUp);
        assert_eq!(objects[1].fighter.unwrap().hp, 10);
        assert_eq!(objects[2].fighter.unwrap().hp, 50);
        assert_eq!(objects[3].fighter.unwrap().hp, 50);
    }
}

#[test]
fn lightning_passes_over_what_is_not_seen_or_does_not_act() {
    let mut g = game();
    let mut fov = FovMap::new(80, 43);
    fov.set(9, 5, true);
    fov.set(6, 5, true);
    let mut corpse = monster("Scenery", 6, 5, 50, 10);
    corpse.ai = None;
    let mut objects =
        vec![hero(5, 5), monster("Hidden", 5, 6, 50, 10), corpse, monster("Seen", 9, 5, 50, 10)];
    assert_eq!(cast_lightning(0, &mut objects, &mut g, &fov), UseResult::UsedUp);
    assert_eq!(objects[1].fighter.unwrap().hp, 50);
    assert_eq!(objects[2].fighter.unwrap().hp, 50);
    assert_eq!(objects[3].fighter.unwrap().hp, 10);
}

#[test]
fn lightning_reaches_five_cells_and_no_further() {
    let mut g = game();
    let fov = all_seen();
    let mut objects = vec![hero(5, 5), monster("Orc", 11, 5, 50, 10)];
    assert_eq!(cast_lightning(0, &mut objects, &mut g, &fov), UseResult::Cancelled);
    assert_eq!(objects[1].fighter.unwrap().hp, 50);
    assert_eq!(g.log, vec![(String::from("No enemy is close enough to strike."), red())]);
    objects[1].set_pos(10, 7);
    assert_eq!(cast_lightning(0, &mut objects, &mut g, &fov), UseResult::Cancelled);
    assert_eq!(objects[1].fighter.unwrap().hp, 50);
    objects[1].set_pos(10, 5);
    assert_eq!(cast_lightning(0, &mut objects, &mut g, &fov), UseResult::UsedUp);
    assert_eq!(objects[1].fighter.unwrap().hp, 10);
    objects[1].set_pos(8, 9);
    assert_eq!(cast_lightning(0, &mut objects, &mut g, &fov), UseResult::UsedUp);
    assert_eq!(objects[1].name, "Remains of Orc");
}

#[test]
fn lightning_that_kills_gives_experience() {
    let mut g = game();
    let fov = all_seen();
    let mut objects = vec![hero(5, 5), monster("Orc", 6, 5, 20, 35)];
    assert_eq!(cast_lightning(0, &mut objects, &mut g, &fov), UseResult::UsedUp);
    assert_eq!(objects[0].fighter.unwrap().xp, 35);
    assert_eq!(objects[1].name, "Remains of Orc");
    assert_eq!(g.log.len(), 2);
}

#[test]
fn aims_of_the_items() {
    let mut g = game();
    assert_eq!(take_aim(Item::Heal, &mut g), Aim::Nothing);
    assert_eq!(take_aim(Item::Lightning, &mut g), Aim::Nothing);
    assert_eq!(take_aim(Item::Sword, &mut g), Aim::Nothing);
    assert!(g.log.is_empty());
    assert_eq!(take_aim(Item::Confuse, &mut g), Aim::Monster(8));
    assert_eq!(take_aim(Item::Fireball, &mut g), Aim::Tile);
    assert_eq!(
        g.log,
        vec![
            (
                String::from("Left-click an enemy to confuse it, or right-click to cancel."),
                light_cyan()
            ),
            (
                String::from("Left-click a target tile for the fireball, or right-click to cancel."),
                light_cyan()
            ),
        ]
    );
}

#[test]
fn targets_give_what_was_chosen() {
    assert_eq!(Target::Monster(4).monster(), Some(4));
    assert_eq!(Target::Monster(4).tile(), None);
    assert_eq!(Target::Tile(2, 3).tile(), Some((2, 3)));
    assert_eq!(Target::Tile(2, 3).monster(), None);
    assert_eq!(Target::Nothing.monster(), None);
    assert_eq!(Target::Nothing.tile(), None);
}

#[test]
fn confuse_wraps_the_behaviour_for_ten_turns() {
    let mut g = game();
    let mut objects = vec![hero(5, 5), monster("Orc", 6, 5, 20, 35)];
    assert_eq!(cast_confuse(0, &mut objects, &mut g, Some(1)), UseResult::UsedUp);
    match &objects[1].ai {
        Some(Ai::Confused { previous_ai, num_turns }) => {
            assert_eq!(*num_turns, 10);
            assert!(matches!(**previous_ai, Ai::Basic));
        }
        _ => panic!("the monster is not confused"),
    }
    assert_eq!(
        g.log,
        vec![(
            String::from("The eyes of the Orc look vacant, as it starts to stumble around!"),
            light_green()
        )]
    );
}

#[test]
fn confuse_of_something_without_behaviour_comes_back_to_the_basic_one() {
    let mut g = game();
    let mut objects = vec![hero(5, 5), monster("Orc", 6, 5, 20, 35)];
    objects[1].ai = None;
    cast_confuse(0, &mut objects, &mut g, Some(1));
    match &objects[1].ai {
        Some(Ai::Confused { previous_ai, .. }) => assert!(matches!(**previous_ai, Ai::Basic)),
        _ => panic!("the monster is not confused"),
    }
}

#[test]
fn confuse_without_monster_cancels() {
    let mut g = game();
    let mut objects = vec![hero(5, 5), monster("Orc", 6, 5, 20, 35)];
    assert_eq!(cast_confuse(0, &mut objects, &mut g, None), UseResult::Cancelled);
    assert!(matches!(objects[1].ai, Some(Ai::Basic)));
    assert_eq!(g.log, vec![(String::from("No enemy is close enough to strike."), red())]);
}

#[test]
fn fireball_burns_within_three_cells_and_not_beyond() {
    let mut g = game();
    let mut objects = vec![
        hero(30, 30),
        monster("Center", 10, 10, 50, 1),
        monster("Edge", 13, 10, 50, 1),
        monster("Diagonal", 12, 12, 50, 1),
        monster("Beyond", 14, 10, 50, 1),
        monster("Corner", 13, 11, 50, 1),
        GameObject::new(10, 11, '!', "potion", white(), false),
    ];
    assert_eq!(cast_fireball(0, &mut objects, &mut g, Some((10, 10))), UseResult::UsedUp);
    assert_eq!(objects[1].fighter.unwrap().hp, 25);
    assert_eq!(objects[2].fighter.unwrap().hp, 25);
    assert_eq!(objects[3].fighter.unwrap().hp, 25);
    assert_eq!(objects[4].fighter.unwrap().hp, 50);
    assert_eq!(objects[5].fighter.unwrap().hp, 50);
    assert_eq!(objects[0].fighter.unwrap().hp, 100);
    assert_eq!(objects[6].name, "potion");
    assert_eq!(
        g.log,
        vec![
            (
                String::from("The fireball explodes, burning everything within 3 tiles!"),
                orange()
            ),
            (String::from("The Center gets burned for 25 hit points."), orange()),
            (String::from("The Edge gets burned for 25 hit points."), orange()),
            (String::from("The Diagonal gets burned for 25 hit points."), orange()),
        ]
    );
}

#[test]
fn fireball_burns_the_player_too() {
    let mut g = game();
    let mut objects = vec![hero(10, 11), monster("Orc", 10, 10, 50, 1)];
    cast_fireball(0, &mut objects, &mut g, Some((10, 10)));
    assert_eq!(objects[0].fighter.unwrap().hp, 75);
    assert_eq!(objects[1].fighter.unwrap().hp, 25);
}

#[test]
fn fireball_credits_the_experience_of_the_dead_once() {
    let mut g = game();
    let mut objects = vec![
        hero(30, 30),
        monster("Orc", 10, 10, 20, 35),
        monster("Troll", 11, 10, 30, 100),
        monster("Rat", 10, 11, 5, 7),
    ];
    objects[0].fighter.as_mut().unwrap().xp = 3;
    cast_fireball(0, &mut objects, &mut g, Some((10, 10)));
    assert_eq!(objects[1].name, "Remains of Orc");
    assert_eq!(objects[2].fighter.unwrap().hp, 5);
    assert_eq!(objects[3].name, "Remains of Rat");
    assert_eq!(objects[0].fighter.unwrap().xp, 3 + 35 + 7);
}

#[test]
fn fireball_gives_no_experience_for_the_death_of_the_player() {
    let mut g = game();
    let mut p = hero(10, 10);
    p.fighter.as_mut().unwrap().hp = 5;
    p.fighter.as_mut().unwrap().xp = 50;
    let mut objects = vec![p];
    cast_fireball(0, &mut objects, &mut g, Some((10, 10)));
    assert_eq!(objects[0].name, "Corpse of player");
    assert_eq!(objects[0].fighter.unwrap().xp, 50);
}

#[test]
fn fireball_on_a_dead_player_is_no_second_death() {
    let mut g = game();
    let mut p = hero(10, 10);
    p.take_damage(150, &mut g);
    assert_eq!(p.name, "Corpse of player");
    let lines = g.log.len();
    let mut objects = vec![p, monster("Orc", 11, 10, 50, 1)];
    cast_fireball(0, &mut objects, &mut g, Some((10, 10)));
    assert_eq!(objects[0].name, "Corpse of player");
    assert_eq!(objects[0].fighter.unwrap().hp, -75);
    assert_eq!(objects[1].fighter.unwrap().hp, 25);
    assert_eq!(g.log.len(), lines + 3);
    assert!(g.log.iter().skip(lines).all(|line| line.0 != "You died!"));
}

#[test]
fn fireball_without_cell_cancels_silently() {
    let mut g = game();
    let mut objects = vec![hero(10, 11), monster("Orc", 10, 10, 50, 1)];
    assert_eq!(cast_fireball(0, &mut objects, &mut g, None), UseResult::Cancelled);
    assert_eq!(objects[1].fighter.unwrap().hp, 50);
    assert!(g.log.is_empty());
}

#[test]
fn use_item_uses_a_potion_up() {
    let mut g = game();
    g.inventory.push(scroll(Item::Heal));
    let mut objects = vec![hero(5, 5)];
    objects[0].fighter.as_mut().unwrap().hp = 1;
    use_item(0, &mut objects, &FovMap::new(80, 43), &mut g, Target::Nothing);
    assert!(g.inventory.is_empty());
    assert_eq!(objects[0].fighter.unwrap().hp, 41);
}

#[test]
fn use_item_that_cancels_keeps_the_item_and_logs() {
    let mut g = game();
    g.inventory.push(scroll(Item::Heal));
    let mut objects = vec![hero(5, 5)];
    use_item(0, &mut objects, &FovMap::new(80, 43), &mut g, Target::Nothing);
    assert_eq!(g.inventory.len(), 1);
    assert_eq!(
        g.log,
        vec![
            (String::from("You are already at full health."), red()),
            (String::from("Cancelled"), white()),
        ]
    );
}

#[test]
fn use_item_of_the_scrolls() {
    let mut g = game();
    g.inventory.push(scroll(Item::Confuse));
    g.inventory.push(scroll(Item::Fireball));
    g.inventory.push(scroll(Item::Lightning));
    let fov = all_seen();
    let mut objects = vec![hero(5, 5), monster("Orc", 8, 5, 100, 35)];
    use_item(2, &mut objects, &fov, &mut g, Target::Nothing);
    assert_eq!(objects[1].fighter.unwrap().hp, 60);
    assert_eq!(g.inventory.len(), 2);
    use_item(1, &mut objects, &fov, &mut g, Target::Tile(9, 5));
    assert_eq!(objects[1].fighter.unwrap().hp, 35);
    assert_eq!(objects[0].fighter.unwrap().hp, 100);
    assert_eq!(g.inventory.len(), 1);
    use_item(0, &mut objects, &fov, &mut g, Target::Nothing);
    assert_eq!(g.inventory.len(), 1);
    assert!(matches!(objects[1].ai, Some(Ai::Basic)));
    use_item(0, &mut objects, &fov, &mut g, Target::Monster(1));
    assert!(g.inventory.is_empty());
    assert!(matches!(objects[1].ai, Some(Ai::Confused { num_turns: 10, .. })));
}
