use rusty_rogues::color::white;
use rusty_rogues::entity::{Ai, DeathCallback, Fighter, GameObject};
use rusty_rogues::fov::FovMap;
use rusty_rogues::targeting::{
    closest_monster, monster_on, target_monster, target_tile, Pointer, Targeting,
};

fn hero(x: i32, y: i32) -> GameObject {
    let mut o = GameObject::new(x, y, '@', "Player", white(), true);
    o.alive = true;
    o.fighter = Some(Fighter {
        base_max_hp: 100,
        hp: 100,
        base_defense: 1,
        base_power: 2,
        on_death: DeathCallback::Player,
        xp: 0,
    });
    o
}

fn orc(x: i32, y: i32) -> GameObject {
    let mut o = GameObject::new(x, y, 'o', "Orc", white(), true);
    o.alive = true;
    o.fighter = Some(Fighter {
        base_max_hp: 20,
        hp: 20,
        base_defense: 0,
        base_power: 4,
        on_death: DeathCallback::Monster,
        xp: 35,
    });
    o.ai = Some(Ai::Basic);
    o
}

fn all_seen() -> FovMap {
    let mut fov = FovMap::new(80, 43);
    for x in 0..80 {
        for y in 0..43 {
            fov.set(x, y, true);
        }
    }
    fov
}

fn click(cx: i32, cy: i32) -> Pointer {
    Pointer { cx, cy, lbutton_pressed: true, rbutton_pressed: false }
}

#[test]
fn closest_monster_is_the_nearest_in_range() {
    let fov = all_seen();
    let objects = vec![hero(5, 5), orc(9, 5), orc(5, 8), orc(7, 7)];
    assert_eq!(closest_monster(5, &objects, &fov), Some(3));
    assert_eq!(closest_monster(3, &objects, &fov), Some(3));
    assert_eq!(closest_monster(2, &objects, &fov), None);
    assert_eq!(closest_monster(1, &objects, &fov), None);
}

#[test]
fn closest_monster_range_ends_at_the_range() {
    let fov = all_seen();
    let mut objects = vec![hero(5, 5), orc(8, 5)];
    assert_eq!(closest_monster(3, &objects, &fov), Some(1));
    assert_eq!(closest_monster(2, &objects, &fov), None);
    objects[1].set_pos(7, 7);
    assert_eq!(closest_monster(3, &objects, &fov), Some(1));
    assert_eq!(closest_monster(2, &objects, &fov), None);
    objects[1].set_pos(8, 9);
    assert_eq!(closest_monster(5, &objects, &fov), Some(1));
    objects[1].set_pos(8, 10);
    assert_eq!(closest_monster(5, &objects, &fov), None);
    assert_eq!(closest_monster(0, &objects, &fov), None);
    assert_eq!(closest_monster(-1, &objects, &fov), None);
    assert_eq!(closest_monster(-7, &objects, &fov), None);
}

#[test]
fn closest_monster_beyond_the_range_is_none() {
    let fov = all_seen();
    let objects = vec![hero(0, 0), orc(5, 2)];
    assert_eq!(closest_monster(5, &objects, &fov), None);
    assert_eq!(closest_monster(6, &objects, &fov), Some(1));
    let objects = vec![hero(0, 0), orc(5, 0)];
    assert_eq!(closest_monster(5, &objects, &fov), Some(1));
    assert_eq!(closest_monster(4, &objects, &fov), None);
}

#[test]
fn closest_monster_on_the_cell_of_the_player_is_within_any_range() {
    let fov = all_seen();
    let objects = vec![hero(5, 5), orc(5, 5)];
    assert_eq!(closest_monster(0, &objects, &fov), Some(1));
    assert_eq!(closest_monster(-1, &objects, &fov), None);
}

#[test]
fn closest_monster_of_equally_near_is_the_first() {
    let fov = all_seen();
    let objects = vec![hero(5, 5), orc(5, 7), orc(7, 5), orc(3, 5)];
    for _ in 0..3 {
        assert_eq!(closest_monster(5, &objects, &fov), Some(1));
    }
}

#[test]
fn closest_monster_without_objects_is_none() {
    let fov = all_seen();
    assert_eq!(closest_monster(5, &Vec::new(), &fov), None);
    assert_eq!(closest_monster(5, &vec![hero(5, 5)], &fov), None);
}

#[test]
fn target_tile_takes_a_click_on_a_cell_in_sight() {
    let mut fov = FovMap::new(80, 43);
    fov.set(7, 5, true);
    let objects = vec![hero(5, 5)];
    assert_eq!(
        target_tile(&click(7, 5), false, &objects, &fov, None),
        Targeting::Chosen((7, 5))
    );
    assert_eq!(target_tile(&click(8, 5), false, &objects, &fov, None), Targeting::Waiting);
    assert_eq!(target_tile(&click(80, 5), false, &objects, &fov, None), Targeting::Waiting);
}

#[test]
fn target_tile_holds_to_the_range() {
    let fov = all_seen();
    let objects = vec![hero(5, 5)];
    assert_eq!(
        target_tile(&click(13, 5), false, &objects, &fov, Some(8)),
        Targeting::Chosen((13, 5))
    );
    assert_eq!(target_tile(&click(14, 5), false, &objects, &fov, Some(8)), Targeting::Waiting);
    assert_eq!(
        target_tile(&click(5, 5), false, &objects, &fov, Some(0)),
        Targeting::Chosen((5, 5))
    );
    assert_eq!(target_tile(&click(5, 5), false, &objects, &fov, Some(-1)), Targeting::Waiting);
    assert_eq!(
        target_tile(&click(70, 40), false, &objects, &fov, None),
        Targeting::Chosen((70, 40))
    );
}

#[test]
fn target_tile_cancels_on_the_second_button_or_escape() {
    let fov = all_seen();
    let objects = vec![hero(5, 5)];
    let right = Pointer { cx: 7, cy: 5, lbutton_pressed: false, rbutton_pressed: true };
    let idle = Pointer { cx: 7, cy: 5, lbutton_pressed: false, rbutton_pressed: false };
    assert_eq!(target_tile(&right, false, &objects, &fov, None), Targeting::Cancelled);
    assert_eq!(target_tile(&idle, true, &objects, &fov, None), Targeting::Cancelled);
    assert_eq!(target_tile(&idle, false, &objects, &fov, None), Targeting::Waiting);
    let both = Pointer { cx: 7, cy: 5, lbutton_pressed: true, rbutton_pressed: true };
    assert_eq!(target_tile(&both, true, &objects, &fov, None), Targeting::Chosen((7, 5)));
    let out = Pointer { cx: 30, cy: 5, lbutton_pressed: true, rbutton_pressed: false };
    assert_eq!(target_tile(&out, true, &objects, &fov, Some(8)), Targeting::Cancelled);
}

#[test]
fn monster_on_is_the_first_fighter_but_the_player() {
    let objects = vec![
        hero(5, 5),
        GameObject::new(6, 5, '!', "potion", white(), false),
        orc(6, 5),
        orc(6, 5),
    ];
    assert_eq!(monster_on(6, 5, &objects), Some(2));
    assert_eq!(monster_on(5, 5, &objects), None);
    assert_eq!(monster_on(9, 9, &objects), None);
}

#[test]
fn target_monster_waits_for_a_click_on_a_monster() {
    let fov = all_seen();
    let objects = vec![hero(5, 5), orc(7, 5)];
    assert_eq!(target_monster(&click(7, 5), false, &objects, &fov, Some(8)), Targeting::Chosen(1));
    assert_eq!(target_monster(&click(6, 5), false, &objects, &fov, Some(8)), Targeting::Waiting);
    assert_eq!(target_monster(&click(5, 5), false, &objects, &fov, Some(8)), Targeting::Waiting);
    let right = Pointer { cx: 7, cy: 5, lbutton_pressed: false, rbutton_pressed: true };
    assert_eq!(target_monster(&right, false, &objects, &fov, Some(8)), Targeting::Cancelled);
}
