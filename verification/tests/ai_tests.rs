use rusty_rogues::ai::{
    ai_basic, ai_confused, ai_confused_step, move_by, move_towards, step, take_turn,
    take_turn_with,
};
use rusty_rogues::color::{red, white};
use rusty_rogues::data_manipulation::mut_two;
use rusty_rogues::entity::{Ai, DeathCallback, Fighter, Game, GameObject};
use rusty_rogues::fov::FovMap;
use rusty_rogues::tile::Tile;

fn open_map() -> Vec<Vec<Tile>> {
    let mut map = vec![vec![Tile::wall(); 43]; 80];
    for x in 1..79 {
        for y in 1..42 {
            map[x][y] = Tile::empty();
        }
    }
    map
}

fn game() -> Game {
    Game { map: open_map(), log: Vec::new(), inventory: Vec::new(), dungeon_level: 1 }
}

fn hero(x: i32, y: i32) -> GameObject {
    let mut o = GameObject::new(x, y, '@', "Player", white(), true);
    o.alive = true;
    o.fighter = Some(Fighter {
        base_max_hp: 100,
        hp: 100,
        base_defense: 1,
        base_power: 2,
        on_death: DeathCallback::Player,
        xp: 0,
    });
    o
}

fn orc(x: i32, y: i32) -> GameObject {
    let mut o = GameObject::new(x, y, 'o', "Orc", white(), true);
    o.alive = true;
    o.fighter = Some(Fighter {
        base_max_hp: 20,
        hp: 20,
        base_defense: 0,
        base_power: 4,
        on_death: DeathCallback::Monster,
        xp: 35,
    });
    o.ai = Some(Ai::Basic);
    o
}

fn all_seen() -> FovMap {
    let mut fov = FovMap::new(80, 43);
    for x in 0..80 {
        for y in 0..43 {
            fov.set(x, y, true);
        }
    }
    fov
}

#[test]
fn mut_two_reaches_both_elements() {
    let mut items = vec![10, 20, 30, 40];
    {
        let (a, b) = mut_two(3, 1, &mut items);
        assert_eq!((*a, *b), (40, 20));
        *a += 1;
        *b += 2;
    }
    assert_eq!(items, vec![10, 22, 30, 41]);
    {
        let (a, b) = mut_two(0, 2, &mut items);
        *a = 7;
        *b = 9;
    }
    assert_eq!(items, vec![7, 22, 9, 41]);
}

#[test]
fn step_rounds_the_share_of_the_distance() {
    assert_eq!(step(0, 0), 0);
    assert_eq!(step(5, 0), 1);
    assert_eq!(step(-5, 0), -1);
    assert_eq!(step(0, 5), 0);
    assert_eq!(step(3, 3), 1);
    assert_eq!(step(-3, 3), -1);
    assert_eq!(step(1, 2), 0);
    assert_eq!(step(2, 3), 1);
    assert_eq!(step(4, 7), 0);
    assert_eq!(step(-4, 6), -1);
    assert_eq!(step(7, 12), 1);
    assert_eq!(step(7, 13), 0);
}

#[test]
fn move_by_goes_to_a_free_cell() {
    let g = game();
    let mut objects = vec![hero(5, 5), orc(7, 5)];
    move_by(1, 0, 1, &g, &mut objects);
    assert_eq!(objects[1].pos(), (7, 6));
    assert_eq!(objects[0].pos(), (5, 5));
}

#[test]
fn move_by_stops_at_walls_and_blocking_objects() {
    let g = game();
    let mut objects = vec![hero(1, 1), orc(2, 1)];
    move_by(0, -1, 0, &g, &mut objects);
    assert_eq!(objects[0].pos(), (1, 1));
    move_by(0, 1, 0, &g, &mut objects);
    assert_eq!(objects[0].pos(), (1, 1));
    move_by(1, -1, 0, &g, &mut objects);
    assert_eq!(objects[1].pos(), (2, 1));
}

#[test]
fn move_by_passes_over_objects_that_do_not_block() {
    let g = game();
    let mut potion = GameObject::new(6, 5, '!', "potion", white(), false);
    potion.always_visible = true;
    let mut objects = vec![hero(5, 5), potion];
    move_by(0, 1, 0, &g, &mut objects);
    assert_eq!(objects[0].pos(), (6, 5));
}

#[test]
fn move_towards_takes_one_step() {
    let g = game();
    let mut objects = vec![hero(5, 5), orc(10, 5), orc(10, 10), orc(6, 12)];
    move_towards(1, 5, 5, &g, &mut objects);
    assert_eq!(objects[1].pos(), (9, 5));
    move_towards(2, 5, 5, &g, &mut objects);
    assert_eq!(objects[2].pos(), (9, 9));
    move_towards(3, 5, 5, &g, &mut objects);
    assert_eq!(objects[3].pos(), (6, 11));
}

#[test]
fn basic_monster_that_is_not_seen_waits() {
    let mut g = game();
    let fov = FovMap::new(80, 43);
    let mut objects = vec![hero(5, 5), orc(8, 5)];
    assert!(matches!(ai_basic(1, &mut objects, &fov, &mut g), Ai::Basic));
    assert_eq!(objects[1].pos(), (8, 5));
    assert!(g.log.is_empty());
}

#[test]
fn basic_monster_approaches_from_two_cells() {
    let mut g = game();
    let fov = all_seen();
    let mut objects = vec![hero(5, 5), orc(7, 5)];
    ai_basic(1, &mut objects, &fov, &mut g);
    assert_eq!(objects[1].pos(), (6, 5));
    assert_eq!(objects[0].fighter.unwrap().hp, 100);
}

#[test]
fn basic_monster_attacks_from_the_next_cell() {
    let mut g = game();
    let fov = all_seen();
    let mut objects = vec![hero(5, 5), orc(6, 6)];
    ai_basic(1, &mut objects, &fov, &mut g);
    assert_eq!(objects[1].pos(), (6, 6));
    assert_eq!(objects[0].fighter.unwrap().hp, 97);
    assert_eq!(g.log, vec![(String::from("Orc attacks Player for 3 hit points"), white())]);
}

#[test]
fn basic_monster_leaves_a_dead_player_alone() {
    let mut g = game();
    let fov = all_seen();
    let mut p = hero(5, 5);
    p.fighter.as_mut().unwrap().hp = 0;
    let mut objects = vec![p, orc(6, 5)];
    ai_basic(1, &mut objects, &fov, &mut g);
    assert_eq!(objects[0].fighter.unwrap().hp, 0);
    assert!(g.log.is_empty());
}

#[test]
fn monster_that_kills_the_player_gets_the_experience() {
    let mut g = game();
    let fov = all_seen();
    let mut p = hero(5, 5);
    p.fighter.as_mut().unwrap().hp = 2;
    p.fighter.as_mut().unwrap().xp = 12;
    let mut objects = vec![p, orc(6, 5)];
    take_turn_with(1, &mut objects, &fov, &mut g, 0, 0);
    assert!(!objects[0].alive);
    assert_eq!(objects[0].name, "Corpse of player");
    assert_eq!(objects[1].fighter.unwrap().xp, 47);
    assert!(matches!(objects[1].ai, Some(Ai::Basic)));
    assert_eq!(g.log[1], (String::from("You died!"), red()));
}

#[test]
fn confused_monster_stumbles_and_counts_down() {
    let mut g = game();
    let mut objects = vec![hero(5, 5), orc(10, 10)];
    let ai = ai_confused_step(1, &mut objects, &mut g, Box::new(Ai::Basic), 3, -1, 1);
    assert_eq!(objects[1].pos(), (9, 11));
    assert!(matches!(ai, Ai::Confused { num_turns: 2, .. }));
    assert!(g.log.is_empty());
}

#[test]
fn confusion_with_no_turn_left_stumbles_once_more_and_then_ends() {
    let mut g = game();
    let fov = all_seen();
    let mut o = orc(10, 10);
    o.ai = Some(Ai::Confused { previous_ai: Box::new(Ai::Basic), num_turns: 0 });
    let mut objects = vec![hero(30, 30), o];
    take_turn_with(1, &mut objects, &fov, &mut g, 1, 0);
    assert_eq!(objects[1].pos(), (11, 10));
    assert!(matches!(objects[1].ai, Some(Ai::Confused { num_turns: -1, .. })));
    assert!(g.log.is_empty());
    take_turn_with(1, &mut objects, &fov, &mut g, 1, 0);
    assert_eq!(objects[1].pos(), (11, 10));
    assert!(matches!(objects[1].ai, Some(Ai::Basic)));
    assert_eq!(g.log, vec![(String::from("The Orc is no longer confused!"), red())]);
    take_turn_with(1, &mut objects, &fov, &mut g, 1, 0);
    assert_eq!(objects[1].pos(), (12, 11));
}

#[test]
fn confusion_gives_back_the_behaviour_it_replaced() {
    let mut g = game();
    let mut objects = vec![hero(5, 5), orc(10, 10)];
    let inner = Ai::Confused { previous_ai: Box::new(Ai::Basic), num_turns: 4 };
    let ai = ai_confused_step(1, &mut objects, &mut g, Box::new(inner), -1, 1, 1);
    assert!(matches!(ai, Ai::Confused { num_turns: 4, .. }));
    assert_eq!(objects[1].pos(), (10, 10));
}

#[test]
fn confused_monster_moves_at_most_one_cell() {
    for _ in 0..100 {
        let mut g = game();
        let mut objects = vec![hero(5, 5), orc(10, 10)];
        let ai = ai_confused(1, &mut objects, &mut g, Box::new(Ai::Basic), 5);
        assert!(matches!(ai, Ai::Confused { num_turns: 4, .. }));
        let (x, y) = objects[1].pos();
        assert!((x - 10).abs() <= 1 && (y - 10).abs() <= 1);
    }
}

#[test]
fn take_turn_of_an_object_without_behaviour_does_nothing() {
    let mut g = game();
    let fov = all_seen();
    let mut objects = vec![hero(5, 5), orc(6, 5)];
    take_turn(0, &mut objects, &fov, &mut g);
    assert_eq!(objects[0].pos(), (5, 5));
    assert_eq!(objects[1].fighter.unwrap().hp, 20);
    assert!(objects[0].ai.is_none());
    assert!(g.log.is_empty());
}

#[test]
fn take_turn_of_a_basic_monster_chases_the_player() {
    let mut g = game();
    let fov = all_seen();
    let mut objects = vec![hero(5, 5), orc(5, 9)];
    take_turn(1, &mut objects, &fov, &mut g);
    assert_eq!(objects[1].pos(), (5, 8));
    assert!(matches!(objects[1].ai, Some(Ai::Basic)));
}
