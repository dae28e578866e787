use rusty_rogues::color::{green, red, sky, violet, white};
use rusty_rogues::entity::{Ai, DeathCallback, Fighter, Game, GameObject, Item, Slot};
use rusty_rogues::fov::FovMap;
use rusty_rogues::player::PlayerAction;
use rusty_rogues::session::{
    end_turn, handle_keys, item_here, monsters_turn, new_game, next_level, player_on_stairs,
    Action,
};
use rusty_rogues::spell_effects::Target;
use rusty_rogues::tile::Tile;

fn open_map() -> Vec<Vec<Tile>> {
    let mut map = vec![vec![Tile::wall(); 43]; 80];
    for x in 1..79 {
        for y in 1..42 {
            map[x][y] = Tile::empty();
        }
    }
    map
}

fn game() -> Game {
    Game { map: open_map(), log: Vec::new(), inventory: Vec::new(), dungeon_level: 1 }
}

fn hero(x: i32, y: i32) -> GameObject {
    let mut o = GameObject::new(x, y, '@', "Player", white(), true);
    o.alive = true;
    o.fighter = Some(Fighter {
        base_max_hp: 100,
        hp: 100,
        base_defense: 1,
        base_power: 2,
        on_death: DeathCallback::Player,
        xp: 0,
    });
    o
}

fn orc(x: i32, y: i32) -> GameObject {
    let mut o = GameObject::new(x, y, 'o', "Orc", white(), true);
    o.alive = true;
    o.fighter = Some(Fighter {
        base_max_hp: 20,
        hp: 20,
        base_defense: 0,
        base_power: 4,
        on_death: DeathCallback::Monster,
        xp: 35,
    });
    o.ai = Some(Ai::Basic);
    o
}

fn potion(x: i32, y: i32) -> GameObject {
    let mut o = GameObject::new(x, y, '!', "Healing Potion", white(), false);
    o.item = Some(Item::Heal);
    o
}

fn all_seen() -> FovMap {
    let mut fov = FovMap::new(80, 43);
    for x in 0..80 {
        for y in 0..43 {
            fov.set(x, y, true);
        }
    }
    fov
}

#[test]
fn new_game_begins_on_the_first_level() {
    let (objects, game) = new_game();
    assert_eq!(game.dungeon_level, 1);
    assert_eq!(game.map.len(), 80);
    assert_eq!(
        game.log,
        vec![(
            String::from("Welcome stranger! Prepare to perish in the Tombs of the Ancient Kings."),
            red()
        )]
    );
    assert_eq!(game.inventory.len(), 1);
    let dagger = &game.inventory[0];
    assert_eq!(dagger.name, "Dagger");
    assert_eq!(dagger.char, '-');
    assert_eq!(dagger.color, sky());
    assert_eq!(dagger.item, Some(Item::Sword));
    let e = dagger.equipment.unwrap();
    assert_eq!(
        (e.slot, e.equipped, e.power_bonus, e.defense_bonus, e.hp_bonus),
        (Slot::LeftHand, true, 2, 0, 0)
    );
    let player = &objects[0];
    assert_eq!(player.name, "Player");
    assert_eq!(player.char, '@');
    assert!(player.alive && player.blocks);
    let f = player.fighter.unwrap();
    assert_eq!((f.base_max_hp, f.hp, f.base_defense, f.base_power, f.xp), (100, 100, 1, 2, 0));
    assert_eq!(f.on_death, DeathCallback::Player);
    assert!(!game.map[player.x as usize][player.y as usize].blocked);
    assert_eq!(player.power(&game), 4);
    assert_eq!(objects.last().unwrap().name, "stairs");
}

#[test]
fn next_level_rests_and_goes_deeper() {
    let (mut objects, mut game) = new_game();
    objects[0].fighter.as_mut().unwrap().hp = 20;
    objects[0].fighter.as_mut().unwrap().xp = 77;
    let lines = game.log.len();
    next_level(&mut objects, &mut game);
    assert_eq!(game.dungeon_level, 2);
    assert_eq!(objects[0].fighter.unwrap().hp, 70);
    assert_eq!(objects[0].fighter.unwrap().xp, 77);
    assert_eq!(objects[0].name, "Player");
    assert_eq!(objects.last().unwrap().name, "stairs");
    assert!(!game.map[objects[0].x as usize][objects[0].y as usize].blocked);
    assert_eq!(game.inventory.len(), 1);
    assert_eq!(game.log.len(), lines + 2);
    assert_eq!(
        game.log[lines],
        (String::from("You take a moment to rest and recover your strength."), violet())
    );
    assert_eq!(
        game.log[lines + 1],
        (
            String::from(
                "After a rare moment of peace, you descend deeper into the heart of the dungeon."
            ),
            red()
        )
    );
}

#[test]
fn next_level_rest_stops_at_the_most_hit_points() {
    let (mut objects, mut game) = new_game();
    objects[0].fighter.as_mut().unwrap().hp = 80;
    next_level(&mut objects, &mut game);
    assert_eq!(objects[0].fighter.unwrap().hp, 100);
}

#[test]
fn monsters_turn_moves_every_monster_once() {
    let mut g = game();
    let fov = all_seen();
    let mut objects = vec![hero(5, 5), orc(5, 9), potion(3, 3), orc(9, 5), orc(5, 4)];
    monsters_turn(&mut objects, &fov, &mut g);
    assert_eq!(objects[0].pos(), (5, 5));
    assert_eq!(objects[1].pos(), (5, 8));
    assert_eq!(objects[2].pos(), (3, 3));
    assert_eq!(objects[3].pos(), (8, 5));
    assert_eq!(objects[4].pos(), (5, 4));
    assert_eq!(objects[0].fighter.unwrap().hp, 97);
    assert_eq!(g.log.len(), 1);
}

#[test]
fn end_turn_lets_the_monsters_act_after_a_turn_only() {
    let mut g = game();
    let fov = all_seen();
    let mut objects = vec![hero(5, 5), orc(5, 9)];
    end_turn(PlayerAction::DidntTakeTurn, &mut objects, &fov, &mut g);
    assert_eq!(objects[1].pos(), (5, 9));
    end_turn(PlayerAction::TookTurn, &mut objects, &fov, &mut g);
    assert_eq!(objects[1].pos(), (5, 8));
    objects[0].alive = false;
    end_turn(PlayerAction::TookTurn, &mut objects, &fov, &mut g);
    assert_eq!(objects[1].pos(), (5, 8));
}

#[test]
fn item_here_finds_the_first_item_under_the_player() {
    let mut objects = vec![hero(5, 5), orc(5, 5), potion(6, 5), potion(5, 5), potion(5, 5)];
    assert_eq!(item_here(&objects), Some(3));
    objects[0].set_pos(6, 5);
    assert_eq!(item_here(&objects), Some(2));
    objects[0].set_pos(7, 7);
    assert_eq!(item_here(&objects), None);
}

#[test]
fn player_on_stairs_looks_for_the_stairs_under_the_player() {
    let mut objects =
        vec![hero(5, 5), GameObject::new(8, 8, '<', "stairs", white(), false), potion(5, 5)];
    assert!(!player_on_stairs(&objects));
    objects[0].set_pos(8, 8);
    assert!(player_on_stairs(&objects));
}

#[test]
fn handle_keys_move_takes_a_turn() {
    let mut g = game();
    let fov = all_seen();
    let mut objects = vec![hero(5, 5), orc(6, 5)];
    assert_eq!(
        handle_keys(Action::Move(0, 1), &mut objects, &mut g, &fov),
        PlayerAction::TookTurn
    );
    assert_eq!(objects[0].pos(), (5, 6));
    objects[0].set_pos(5, 5);
    assert_eq!(
        handle_keys(Action::Move(1, 0), &mut objects, &mut g, &fov),
        PlayerAction::TookTurn
    );
    assert_eq!(objects[1].fighter.unwrap().hp, 18);
}

#[test]
fn handle_keys_wait_takes_a_turn() {
    let mut g = game();
    let fov = all_seen();
    let mut objects = vec![hero(5, 5)];
    assert_eq!(handle_keys(Action::Wait, &mut objects, &mut g, &fov), PlayerAction::TookTurn);
    assert_eq!(objects[0].pos(), (5, 5));
}

#[test]
fn handle_keys_pick_up_takes_no_turn() {
    let mut g = game();
    let fov = all_seen();
    let mut objects = vec![hero(5, 5), potion(5, 5)];
    assert_eq!(
        handle_keys(Action::PickUp, &mut objects, &mut g, &fov),
        PlayerAction::DidntTakeTurn
    );
    assert_eq!(objects.len(), 1);
    assert_eq!(g.inventory.len(), 1);
    assert_eq!(g.log, vec![(String::from("You picked up a Healing Potion!"), green())]);
    assert_eq!(
        handle_keys(Action::PickUp, &mut objects, &mut g, &fov),
        PlayerAction::DidntTakeTurn
    );
    assert_eq!(g.inventory.len(), 1);
}

#[test]
fn handle_keys_use_and_drop_take_no_turn() {
    let mut g = game();
    let fov = all_seen();
    let mut objects = vec![hero(5, 5)];
    objects[0].fighter.as_mut().unwrap().hp = 10;
    g.inventory.push(potion(0, 0));
    g.inventory.push(potion(0, 0));
    assert_eq!(
        handle_keys(Action::Use(0, Target::Nothing), &mut objects, &mut g, &fov),
        PlayerAction::DidntTakeTurn
    );
    assert_eq!(objects[0].fighter.unwrap().hp, 50);
    assert_eq!(g.inventory.len(), 1);
    assert_eq!(
        handle_keys(Action::Drop(0), &mut objects, &mut g, &fov),
        PlayerAction::DidntTakeTurn
    );
    assert!(g.inventory.is_empty());
    assert_eq!(objects.len(), 2);
    assert_eq!(objects[1].pos(), (5, 5));
}

#[test]
fn handle_keys_descend_needs_the_stairs() {
    let (mut objects, mut g) = new_game();
    let fov = all_seen();
    let on_stairs = player_on_stairs(&objects);
    assert_eq!(
        handle_keys(Action::Descend, &mut objects, &mut g, &fov),
        PlayerAction::DidntTakeTurn
    );
    assert_eq!(g.dungeon_level, if on_stairs { 2 } else { 1 });
    let level = g.dungeon_level;
    let stairs = objects.last().unwrap().pos();
    objects[0].set_pos(stairs.0, stairs.1);
    assert_eq!(
        handle_keys(Action::Descend, &mut objects, &mut g, &fov),
        PlayerAction::DidntTakeTurn
    );
    assert_eq!(g.dungeon_level, level + 1);
}

#[test]
fn handle_keys_exit_and_other() {
    let mut g = game();
    let fov = all_seen();
    let mut objects = vec![hero(5, 5)];
    assert_eq!(handle_keys(Action::Exit, &mut objects, &mut g, &fov), PlayerAction::Exit);
    assert_eq!(
        handle_keys(Action::Other, &mut objects, &mut g, &fov),
        PlayerAction::DidntTakeTurn
    );
}

#[test]
fn handle_keys_of_a_dead_player_only_leaves() {
    let mut g = game();
    let fov = all_seen();
    let mut objects = vec![hero(5, 5), potion(5, 5)];
    objects[0].alive = false;
    g.inventory.push(potion(0, 0));
    for action in [
        Action::Move(1, 0),
        Action::Wait,
        Action::PickUp,
        Action::Use(0, Target::Nothing),
        Action::Drop(0),
        Action::Descend,
        Action::Other,
    ] {
        assert_eq!(handle_keys(action, &mut objects, &mut g, &fov), PlayerAction::DidntTakeTurn);
    }
    assert_eq!(objects[0].pos(), (5, 5));
    assert_eq!(objects.len(), 2);
    assert_eq!(g.inventory.len(), 1);
    assert!(g.log.is_empty());
    assert_eq!(handle_keys(Action::Exit, &mut objects, &mut g, &fov), PlayerAction::Exit);
}
