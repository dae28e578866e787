use rusty_rogues::color::white;
use rusty_rogues::combat::{is_small, Stat};
use rusty_rogues::dungeon::grid_is_whole;
use rusty_rogues::entity::{Ai, DeathCallback, Equipment, Fighter, Game, GameObject, Item, Slot};
use rusty_rogues::fov::FovMap;
use rusty_rogues::items::use_is_safe;
use rusty_rogues::player::{
    level_choice_is_safe, level_up_is_safe, move_is_safe, LevelUpChoice, PlayerAction,
};
use rusty_rogues::ai::{basic_is_safe, turn_is_safe};
use rusty_rogues::safety::{end_turn_checked, monsters_turn_checked, round_is_safe};
use rusty_rogues::session::{command_is_safe, descent_is_safe, handle_keys_checked, Action};
use rusty_rogues::spell_effects::{
    fighter_left, fireball_is_safe, heal_is_safe, lightning_is_safe, strike_is_safe, xp_for,
    Target,
};
use rusty_rogues::tile::Tile;

fn open_map() -> Vec<Vec<Tile>> {
    let mut map = vec![vec![Tile::wall(); 43]; 80];
    for x in 1..79 {
        for y in 1..42 {
            map[x][y] = Tile::empty();
        }
    }
    map
}

fn game() -> Game {
    Game { map: open_map(), log: Vec::new(), inventory: Vec::new(), dungeon_level: 1 }
}

fn hero(x: i32, y: i32) -> GameObject {
    let mut o = GameObject::new(x, y, '@', "Player", white(), true);
    o.alive = true;
    o.fighter = Some(Fighter {
        base_max_hp: 100,
        hp: 100,
        base_defense: 1,
        base_power: 2,
        on_death: DeathCallback::Player,
        xp: 0,
    });
    o
}

fn orc(x: i32, y: i32) -> GameObject {
    let mut o = GameObject::new(x, y, 'o', "Orc", white(), true);
    o.alive = true;
    o.fighter = Some(Fighter {
        base_max_hp: 20,
        hp: 20,
        base_defense: 0,
        base_power: 4,
        on_death: DeathCallback::Monster,
        xp: 35,
    });
    o.ai = Some(Ai::Basic);
    o
}

fn scroll(kind: Item) -> GameObject {
    let mut o = GameObject::new(0, 0, '#', "scroll", white(), false);
    o.item = Some(kind);
    o
}

fn all_seen() -> FovMap {
    let mut fov = FovMap::new(80, 43);
    for x in 0..80 {
        for y in 0..43 {
            fov.set(x, y, true);
        }
    }
    fov
}

#[test]
fn is_small_is_the_range_of_32_bits() {
    assert!(is_small(0));
    assert!(is_small(i32::MAX as i128));
    assert!(is_small(i32::MIN as i128));
    assert!(!is_small(i32::MAX as i128 + 1));
    assert!(!is_small(i32::MIN as i128 - 1));
}

#[test]
fn grid_is_whole_wants_every_column() {
    let mut map = open_map();
    assert!(grid_is_whole(&map));
    map[40].pop();
    assert!(!grid_is_whole(&map));
    assert!(!grid_is_whole(&vec![vec![Tile::wall(); 43]; 79]));
    assert!(!grid_is_whole(&Vec::new()));
}

#[test]
fn wide_stat_sums_beyond_32_bits() {
    let mut g = game();
    for _ in 0..3 {
        let mut ring = GameObject::new(0, 0, '=', "Ring", white(), false);
        ring.item = Some(Item::Sword);
        ring.equipment = Some(Equipment {
            slot: Slot::Head,
            equipped: true,
            power_bonus: i32::MAX,
            defense_bonus: i32::MIN,
            hp_bonus: 0,
        });
        g.inventory.push(ring);
    }
    let p = hero(5, 5);
    assert_eq!(p.wide_stat(&g, Stat::Power), 2 + 3 * (i32::MAX as i128));
    assert_eq!(p.wide_stat(&g, Stat::Defense), 1 + 3 * (i32::MIN as i128));
    assert_eq!(p.wide_stat(&g, Stat::MaxHp), 100);
    assert!(!p.can_attack(&orc(6, 5), &g));
    assert!(p.can_heal(40, &g));
}

#[test]
fn damage_and_attack_checks() {
    let g = game();
    let mut p = hero(5, 5);
    let mut o = orc(6, 5);
    assert!(p.can_attack(&o, &g));
    assert!(o.can_take_damage(i32::MAX));
    o.fighter.as_mut().unwrap().hp = i32::MIN + 5;
    assert!(o.can_take_damage(5));
    assert!(!o.can_take_damage(6));
    assert!(o.can_take_damage(-6));
    o.fighter.as_mut().unwrap().hp = 1;
    o.fighter.as_mut().unwrap().xp = i32::MAX;
    assert!(p.can_attack(&o, &g));
    p.fighter.as_mut().unwrap().xp = 1;
    assert!(!p.can_attack(&o, &g));
    p.fighter = None;
    assert!(p.can_attack(&o, &g));
    let mut strong = GameObject::new(0, 0, 'x', "thing", white(), true);
    strong.fighter = None;
    o.fighter.as_mut().unwrap().base_defense = -5;
    assert!(!strong.can_attack(&o, &g));
}

#[test]
fn heal_checks() {
    let g = game();
    let mut p = hero(5, 5);
    assert!(p.can_heal(40, &g));
    p.fighter.as_mut().unwrap().hp = i32::MAX - 39;
    assert!(!p.can_heal(40, &g));
    assert!(heal_is_safe(&vec![hero(5, 5)], &g));
    assert!(!heal_is_safe(&vec![p], &g));
    assert!(!heal_is_safe(&Vec::new(), &g));
}

#[test]
fn what_is_left_after_damage() {
    let o = orc(6, 5);
    assert_eq!(fighter_left(&o, 5).unwrap().hp, 15);
    assert_eq!(xp_for(&o, 5), None);
    assert!(fighter_left(&o, 20).is_none());
    assert_eq!(xp_for(&o, 20), Some(35));
    let p = hero(5, 5);
    assert_eq!(fighter_left(&p, 100).unwrap().hp, 0);
    assert_eq!(xp_for(&p, 100), Some(0));
    let thing = GameObject::new(0, 0, 'x', "thing", white(), true);
    assert!(fighter_left(&thing, 100).is_none());
    assert_eq!(xp_for(&thing, 100), None);
}

#[test]
fn strike_and_lightning_checks() {
    let fov = all_seen();
    let mut objects = vec![hero(5, 5), orc(6, 5)];
    assert!(strike_is_safe(1, 40, &objects));
    assert!(lightning_is_safe(&objects, &fov));
    objects[0].fighter.as_mut().unwrap().xp = i32::MAX;
    assert!(!strike_is_safe(1, 40, &objects));
    assert!(strike_is_safe(1, 10, &objects));
    assert!(!lightning_is_safe(&objects, &fov));
    assert!(lightning_is_safe(&objects, &FovMap::new(80, 43)));
    objects[0].fighter = None;
    assert!(!strike_is_safe(1, 40, &objects));
}

#[test]
fn fireball_checks() {
    let mut objects = vec![hero(30, 30), orc(10, 10), orc(11, 10)];
    assert!(fireball_is_safe(&objects, Some((10, 10))));
    assert!(fireball_is_safe(&objects, None));
    objects[0].fighter.as_mut().unwrap().xp = i32::MAX - 69;
    assert!(!fireball_is_safe(&objects, Some((10, 10))));
    assert!(fireball_is_safe(&objects, Some((14, 10))));
    assert!(fireball_is_safe(&objects, Some((50, 10))));
    objects[0].fighter = None;
    assert!(!fireball_is_safe(&objects, Some((50, 10))));
    assert!(!fireball_is_safe(&Vec::new(), Some((50, 10))));
    assert!(fireball_is_safe(&Vec::new(), None));
}

#[test]
fn use_checks() {
    let fov = all_seen();
    let mut g = game();
    g.inventory.push(scroll(Item::Confuse));
    g.inventory.push(scroll(Item::Heal));
    let objects = vec![hero(5, 5), orc(6, 5)];
    assert!(use_is_safe(0, &objects, &fov, &g, Target::Monster(1)));
    assert!(!use_is_safe(0, &objects, &fov, &g, Target::Monster(2)));
    assert!(use_is_safe(0, &objects, &fov, &g, Target::Nothing));
    assert!(use_is_safe(1, &objects, &fov, &g, Target::Nothing));
    assert!(!use_is_safe(2, &objects, &fov, &g, Target::Nothing));
}

#[test]
fn move_checks() {
    let g = game();
    let mut objects = vec![hero(5, 5), orc(6, 5)];
    assert!(move_is_safe(1, 0, &g, &objects));
    assert!(move_is_safe(-1, 1, &g, &objects));
    assert!(!move_is_safe(0, 0, &g, &objects));
    assert!(!move_is_safe(-6, 0, &g, &objects));
    assert!(move_is_safe(-5, 0, &g, &objects));
    assert!(!move_is_safe(i32::MAX, 0, &g, &objects));
    objects[0].fighter = None;
    assert!(move_is_safe(0, 0, &g, &objects));
    assert!(!move_is_safe(1, 0, &g, &Vec::new()));
    let mut broken = game();
    broken.map.pop();
    assert!(!move_is_safe(0, 1, &broken, &objects));
    assert!(move_is_safe(1, 0, &broken, &objects));
}

#[test]
fn level_checks() {
    let mut objects = vec![hero(5, 5)];
    assert!(level_up_is_safe(&objects));
    assert!(!level_choice_is_safe(&objects, LevelUpChoice::Strength) || objects[0].level == 1);
    objects[0].level = 2;
    objects[0].fighter.as_mut().unwrap().xp = 350;
    assert!(level_choice_is_safe(&objects, LevelUpChoice::Strength));
    objects[0].fighter.as_mut().unwrap().base_power = i32::MAX;
    assert!(!level_choice_is_safe(&objects, LevelUpChoice::Strength));
    assert!(level_choice_is_safe(&objects, LevelUpChoice::Agility));
    objects[0].fighter.as_mut().unwrap().hp = i32::MAX - 19;
    assert!(!level_choice_is_safe(&objects, LevelUpChoice::Constitution));
    objects[0].level = i32::MAX / 100;
    assert!(!level_up_is_safe(&objects));
    objects[0].fighter = None;
    assert!(!level_choice_is_safe(&objects, LevelUpChoice::Agility));
    assert!(!level_up_is_safe(&Vec::new()));
}

#[test]
fn descent_checks() {
    let mut g = game();
    let mut objects = vec![hero(5, 5)];
    assert!(descent_is_safe(&objects, &g));
    g.dungeon_level = u32::MAX;
    assert!(!descent_is_safe(&objects, &g));
    g.dungeon_level = 7;
    objects[0].fighter.as_mut().unwrap().hp = i32::MAX - 49;
    assert!(!descent_is_safe(&objects, &g));
    objects[0].fighter.as_mut().unwrap().hp = i32::MAX - 50;
    assert!(descent_is_safe(&objects, &g));
}

#[test]
fn command_checks() {
    let fov = all_seen();
    let g = game();
    let mut objects = vec![hero(5, 5)];
    assert!(command_is_safe(Action::Move(1, 0), &objects, &g, &fov));
    assert!(!command_is_safe(Action::Move(-9, 0), &objects, &g, &fov));
    assert!(!command_is_safe(Action::Drop(0), &objects, &g, &fov));
    assert!(!command_is_safe(Action::Use(0, Target::Nothing), &objects, &g, &fov));
    assert!(command_is_safe(Action::Descend, &objects, &g, &fov));
    assert!(command_is_safe(Action::Wait, &objects, &g, &fov));
    assert!(command_is_safe(Action::PickUp, &objects, &g, &fov));
    assert!(command_is_safe(Action::Exit, &objects, &g, &fov));
    objects[0].alive = false;
    assert!(command_is_safe(Action::Move(-9, 0), &objects, &g, &fov));
    assert!(command_is_safe(Action::Drop(0), &objects, &g, &fov));
    assert!(!command_is_safe(Action::Wait, &Vec::new(), &g, &fov));
}

#[test]
fn handle_keys_checked_does_nothing_where_the_command_cannot_be_done() {
    let fov = all_seen();
    let mut g = game();
    let mut objects = vec![hero(5, 5)];
    assert_eq!(handle_keys_checked(Action::Move(-9, 0), &mut objects, &mut g, &fov), None);
    assert_eq!(objects[0].pos(), (5, 5));
    assert_eq!(
        handle_keys_checked(Action::Move(-1, 0), &mut objects, &mut g, &fov),
        Some(PlayerAction::TookTurn)
    );
    assert_eq!(objects[0].pos(), (4, 5));
    assert_eq!(handle_keys_checked(Action::Drop(3), &mut objects, &mut g, &fov), None);
    assert_eq!(
        handle_keys_checked(Action::Exit, &mut objects, &mut g, &fov),
        Some(PlayerAction::Exit)
    );
}

#[test]
fn round_checks() {
    let g = game();
    let mut objects = vec![hero(5, 5), orc(6, 5), GameObject::new(0, 0, 'x', "rock", white(), true)];
    assert!(round_is_safe(&objects, &g));
    objects[1].set_pos(0, 5);
    assert!(!round_is_safe(&objects, &g));
    objects[1].set_pos(78, 41);
    assert!(round_is_safe(&objects, &g));
    objects[1].set_pos(79, 41);
    assert!(!round_is_safe(&objects, &g));
    objects[1].set_pos(6, 5);
    objects[1].fighter.as_mut().unwrap().base_power = 1 << 30;
    assert!(!round_is_safe(&objects, &g));
    objects[1].fighter.as_mut().unwrap().base_power = (1 << 30) - 1;
    assert!(round_is_safe(&objects, &g));
    objects[1].fighter = None;
    assert!(!round_is_safe(&objects, &g));
    objects[1].ai = None;
    assert!(round_is_safe(&objects, &g));
    objects[0].ai = Some(Ai::Basic);
    assert!(!round_is_safe(&objects, &g));
    objects[0].ai = None;
    let mut impostor = orc(7, 7);
    impostor.name = String::from("Player");
    objects.push(impostor);
    assert!(!round_is_safe(&objects, &g));
    assert!(!round_is_safe(&Vec::new(), &g));
    let mut broken = game();
    broken.map[3].pop();
    assert!(!round_is_safe(&vec![hero(5, 5)], &broken));
}

#[test]
fn turn_checks() {
    let fov = all_seen();
    let g = game();
    let mut objects = vec![hero(5, 5), orc(5, 9), orc(6, 5), orc(1, 1)];
    assert!(basic_is_safe(1, &objects, &fov, &g));
    assert!(turn_is_safe(1, &objects, &fov, &g, 0, 0));
    assert!(turn_is_safe(2, &objects, &fov, &g, 0, 0));
    assert!(turn_is_safe(0, &objects, &fov, &g, 0, 0));
    assert!(!turn_is_safe(4, &objects, &fov, &g, 0, 0));
    objects[2].fighter.as_mut().unwrap().xp = i32::MAX;
    assert!(turn_is_safe(2, &objects, &fov, &g, 0, 0));
    objects[0].fighter.as_mut().unwrap().hp = 3;
    objects[0].fighter.as_mut().unwrap().xp = 1;
    assert!(!turn_is_safe(2, &objects, &fov, &g, 0, 0));
    assert!(!basic_is_safe(2, &objects, &fov, &g));
    assert!(turn_is_safe(1, &objects, &fov, &g, 0, 0));
    assert!(turn_is_safe(2, &objects, &FovMap::new(80, 43), &g, 0, 0));
    objects[3].set_pos(0, 1);
    assert!(turn_is_safe(3, &objects, &fov, &g, 0, 0));
    objects[3].ai = Some(Ai::Confused { previous_ai: Box::new(Ai::Basic), num_turns: 2 });
    assert!(turn_is_safe(3, &objects, &fov, &g, 1, 1));
    assert!(turn_is_safe(3, &objects, &fov, &g, 0, -1));
    assert!(!turn_is_safe(3, &objects, &fov, &g, -1, 0));
    objects[3].ai = Some(Ai::Confused { previous_ai: Box::new(Ai::Basic), num_turns: -1 });
    assert!(turn_is_safe(3, &objects, &fov, &g, -1, 0));
    let mut broken = game();
    broken.map.pop();
    assert!(!turn_is_safe(1, &objects, &fov, &broken, 0, 0));
    assert!(turn_is_safe(3, &objects, &fov, &broken, -1, 0));
    objects[0].ai = Some(Ai::Basic);
    assert!(!turn_is_safe(0, &objects, &fov, &g, 0, 0));
}

#[test]
fn monsters_turn_checked_stops_before_the_turn_that_cannot_be_taken() {
    let fov = all_seen();
    let mut g = game();
    let mut objects = vec![hero(5, 5), orc(5, 9), orc(6, 5), orc(9, 5)];
    objects[0].fighter.as_mut().unwrap().hp = 3;
    objects[0].fighter.as_mut().unwrap().xp = 1;
    objects[2].fighter.as_mut().unwrap().xp = i32::MAX;
    assert!(!monsters_turn_checked(&mut objects, &fov, &mut g));
    assert_eq!(objects[1].pos(), (5, 8));
    assert_eq!(objects[3].pos(), (9, 5));
    assert_eq!(objects[0].fighter.unwrap().hp, 3);
    assert!(objects[0].alive);
    assert!(g.log.is_empty());
    objects[2].fighter.as_mut().unwrap().xp = 35;
    assert!(monsters_turn_checked(&mut objects, &fov, &mut g));
    assert_eq!(objects[1].pos(), (5, 7));
    assert_eq!(objects[3].pos(), (8, 5));
    assert!(!objects[0].alive);
    assert_eq!(objects[2].fighter.unwrap().xp, 36);
}

#[test]
fn end_turn_checked_holds_the_round_as_far_as_it_can() {
    let fov = all_seen();
    let mut g = game();
    let mut objects = vec![hero(5, 5), orc(5, 9)];
    assert!(end_turn_checked(PlayerAction::TookTurn, &mut objects, &fov, &mut g));
    assert_eq!(objects[1].pos(), (5, 8));
    assert!(end_turn_checked(PlayerAction::DidntTakeTurn, &mut objects, &fov, &mut g));
    assert_eq!(objects[1].pos(), (5, 8));
    objects[1].fighter.as_mut().unwrap().xp = i32::MAX;
    assert!(!round_is_safe(&objects, &g));
    assert!(end_turn_checked(PlayerAction::TookTurn, &mut objects, &fov, &mut g));
    assert_eq!(objects[1].pos(), (5, 7));
    objects[1].set_pos(5, 6);
    objects[0].fighter.as_mut().unwrap().hp = 1;
    objects[0].fighter.as_mut().unwrap().xp = 1;
    assert!(!end_turn_checked(PlayerAction::TookTurn, &mut objects, &fov, &mut g));
    assert!(objects[0].alive);
    assert!(end_turn_checked(PlayerAction::DidntTakeTurn, &mut objects, &fov, &mut g));
    assert!(!end_turn_checked(PlayerAction::TookTurn, &mut Vec::new(), &fov, &mut g));
}
