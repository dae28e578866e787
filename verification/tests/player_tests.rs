use rusty_rogues::color::{white, yellow};
use rusty_rogues::entity::{Ai, DeathCallback, Fighter, Game, GameObject};
use rusty_rogues::player::{
    fighter_at, finish_level_up, level_up_choice, level_up_options, move_or_attack,
    try_level_up, LevelUpChoice, PlayerAction,
};
use rusty_rogues::tile::Tile;

fn open_map() -> Vec<Vec<Tile>> {
    let mut map = vec![vec![Tile::wall(); 43]; 80];
    for x in 1..79 {
        for y in 1..42 {
            map[x][y] = Tile::empty();
        }
    }
    map
}

fn game() -> Game {
    Game { map: open_map(), log: Vec::new(), inventory: Vec::new(), dungeon_level: 1 }
}

fn hero(x: i32, y: i32) -> GameObject {
    let mut o = GameObject::new(x, y, '@', "Player", white(), true);
    o.alive = true;
    o.fighter = Some(Fighter {
        base_max_hp: 100,
        hp: 100,
        base_defense: 1,
        base_power: 2,
        on_death: DeathCallback::Player,
        xp: 0,
    });
    o
}

fn orc(x: i32, y: i32) -> GameObject {
    let mut o = GameObject::new(x, y, 'o', "Orc", white(), true);
    o.alive = true;
    o.fighter = Some(Fighter {
        base_max_hp: 20,
        hp: 20,
        base_defense: 0,
        base_power: 4,
        on_death: DeathCallback::Monster,
        xp: 35,
    });
    o.ai = Some(Ai::Basic);
    o
}

#[test]
fn player_actions_differ() {
    assert!(PlayerAction::TookTurn != PlayerAction::DidntTakeTurn);
    assert!(PlayerAction::Exit != PlayerAction::DidntTakeTurn);
}

#[test]
fn fighter_at_finds_the_first_fighter_on_the_cell() {
    let objects = vec![
        hero(5, 5),
        GameObject::new(6, 5, '!', "potion", white(), false),
        orc(6, 5),
        orc(6, 5),
    ];
    assert_eq!(fighter_at(6, 5, &objects), Some(2));
    assert_eq!(fighter_at(5, 5, &objects), Some(0));
    assert_eq!(fighter_at(7, 5, &objects), None);
}

#[test]
fn move_or_attack_moves_to_a_free_cell() {
    let mut g = game();
    let mut objects = vec![hero(5, 5), orc(9, 9)];
    move_or_attack(1, -1, &mut g, &mut objects);
    assert_eq!(objects[0].pos(), (6, 4));
    assert!(g.log.is_empty());
}

#[test]
fn move_or_attack_stops_at_a_wall() {
    let mut g = game();
    let mut objects = vec![hero(1, 1)];
    move_or_attack(-1, 0, &mut g, &mut objects);
    assert_eq!(objects[0].pos(), (1, 1));
}

#[test]
fn move_or_attack_attacks_a_fighter_on_the_cell() {
    let mut g = game();
    let mut objects = vec![hero(5, 5), orc(6, 5)];
    move_or_attack(1, 0, &mut g, &mut objects);
    assert_eq!(objects[0].pos(), (5, 5));
    assert_eq!(objects[1].fighter.unwrap().hp, 18);
    assert_eq!(g.log, vec![(String::from("Player attacks Orc for 2 hit points"), white())]);
}

#[test]
fn move_or_attack_walks_over_remains() {
    let mut g = game();
    let mut objects = vec![hero(5, 5), orc(6, 5)];
    objects[1].take_damage(20, &mut g);
    move_or_attack(1, 0, &mut g, &mut objects);
    assert_eq!(objects[0].pos(), (6, 5));
}

#[test]
fn level_up_is_not_due_below_the_threshold() {
    let mut g = game();
    let mut objects = vec![hero(5, 5)];
    objects[0].fighter.as_mut().unwrap().xp = 349;
    assert!(!try_level_up(&mut objects, &mut g));
    assert_eq!(objects[0].level, 1);
    assert!(g.log.is_empty());
}

#[test]
fn level_up_is_due_at_the_threshold() {
    let mut g = game();
    let mut objects = vec![hero(5, 5)];
    objects[0].fighter.as_mut().unwrap().xp = 350;
    assert!(try_level_up(&mut objects, &mut g));
    assert_eq!(objects[0].level, 2);
    assert_eq!(objects[0].fighter.unwrap().xp, 350);
    assert_eq!(
        g.log,
        vec![(
            String::from("Your battle skills grow stronger! You reached level 2"),
            yellow()
        )]
    );
}

#[test]
fn level_up_threshold_grows_with_the_level() {
    let mut g = game();
    let mut objects = vec![hero(5, 5)];
    objects[0].level = 3;
    objects[0].fighter.as_mut().unwrap().xp = 649;
    assert!(!try_level_up(&mut objects, &mut g));
    objects[0].fighter.as_mut().unwrap().xp = 650;
    assert!(try_level_up(&mut objects, &mut g));
    assert_eq!(objects[0].level, 4);
}

#[test]
fn level_up_options_show_the_bases() {
    let f = hero(0, 0).fighter.unwrap();
    assert_eq!(
        level_up_options(&f),
        vec![
            String::from("Constitution (+20 HP, from 100)"),
            String::from("Strength (+1 attack, from 2)"),
            String::from("Agility (+1 defense, from 1)"),
        ]
    );
}

#[test]
fn level_up_choices_by_line() {
    assert_eq!(level_up_choice(Some(0)), Some(LevelUpChoice::Constitution));
    assert_eq!(level_up_choice(Some(1)), Some(LevelUpChoice::Strength));
    assert_eq!(level_up_choice(Some(2)), Some(LevelUpChoice::Agility));
    assert_eq!(level_up_choice(Some(3)), None);
    assert_eq!(level_up_choice(None), None);
}

#[test]
fn finish_level_up_pays_and_raises_constitution() {
    let mut g = game();
    let mut objects = vec![hero(5, 5)];
    objects[0].fighter.as_mut().unwrap().xp = 360;
    objects[0].fighter.as_mut().unwrap().hp = 50;
    assert!(try_level_up(&mut objects, &mut g));
    finish_level_up(&mut objects, LevelUpChoice::Constitution);
    let f = objects[0].fighter.unwrap();
    assert_eq!((f.xp, f.base_max_hp, f.hp, f.base_power, f.base_defense), (10, 120, 70, 2, 1));
    assert_eq!(objects[0].level, 2);
}

#[test]
fn finish_level_up_raises_strength_or_agility() {
    let mut g = game();
    let mut objects = vec![hero(5, 5)];
    objects[0].fighter.as_mut().unwrap().xp = 350;
    assert!(try_level_up(&mut objects, &mut g));
    finish_level_up(&mut objects, LevelUpChoice::Strength);
    let f = objects[0].fighter.unwrap();
    assert_eq!((f.xp, f.base_max_hp, f.hp, f.base_power, f.base_defense), (0, 100, 100, 3, 1));
    objects[0].fighter.as_mut().unwrap().xp = 500;
    assert!(try_level_up(&mut objects, &mut g));
    finish_level_up(&mut objects, LevelUpChoice::Agility);
    let f = objects[0].fighter.unwrap();
    assert_eq!((f.xp, f.base_max_hp, f.hp, f.base_power, f.base_defense), (0, 100, 100, 3, 2));
    assert_eq!(objects[0].level, 3);
}
