//! What the player does: moving, attacking, and growing in level.

use vstd::prelude::*;
use vstd::string::*;
use crate::ai::{move_by, moved};
use crate::color::{spec_yellow, yellow};
use crate::combat::{attack_lines, attacker_after, can_attack, fits, is_small, target_after};
use crate::constants::{
    LEVEL_UP_BASE, LEVEL_UP_FACTOR, LEVEL_UP_HP, MAP_HEIGHT, MAP_WIDTH, PLAYER, agility_option,
    constitution_option,
    create_agility_option, create_constitution_option, create_log_message,
    create_stength_option, log_message, strength_option,
};
use crate::data_manipulation::mut_two;
use crate::dungeon::{grid_is_whole, grid_ok, on_grid};
use crate::entity::{Entity, Fighter, Game, GameObject, Line, MessageLog, Session, entities};

verus! {

/// How an action of the player ended.
#[derive(Clone, Copy, Debug, PartialEq, Eq, Structural)]
pub enum PlayerAction {
    TookTurn,
    DidntTakeTurn,
    Exit,
}

/// Whether the entity fights and stands on `(x, y)`.
pub open spec fn fights_at(e: Entity, x: int, y: int) -> bool {
    e.fighter is Some && e.x == x && e.y == y
}

/// The place of the first fighter on `(x, y)`.
pub open spec fn first_fighter_at(objects: Seq<Entity>, x: int, y: int) -> Option<int>
    decreases objects.len(),
{
    if objects.len() == 0 {
        None
    } else {
        match first_fighter_at(objects.drop_last(), x, y) {
            Some(i) => Some(i),
            None => if fights_at(objects.last(), x, y) {
                Some(objects.len() - 1)
            } else {
                None
            },
        }
    }
}

/// What [`first_fighter_at`] finds fights on the cell and nothing before it
/// does; where it finds nothing, no fighter is on the cell.
pub proof fn lemma_first_fighter_at(objects: Seq<Entity>, x: int, y: int)
    ensures
        match first_fighter_at(objects, x, y) {
            Some(i) => 0 <= i < objects.len() && fights_at(objects[i], x, y) && forall|j: int|
                0 <= j < i ==> !fights_at(#[trigger] objects[j], x, y),
            None => forall|j: int|
                0 <= j < objects.len() ==> !fights_at(#[trigger] objects[j], x, y),
        },
    decreases objects.len(),
{
    if objects.len() > 0 {
        lemma_first_fighter_at(objects.drop_last(), x, y);
        match first_fighter_at(objects.drop_last(), x, y) {
            Some(i) => {
                assert(objects.drop_last()[i] == objects[i]);
                assert forall|j: int|
                    0 <= j < i implies !fights_at(#[trigger] objects[j], x, y) by {
                    assert(objects.drop_last()[j] == objects[j]);
                }
            },
            None => {
                assert forall|j: int| 0 <= j < objects.len() - 1 implies !fights_at(
                    #[trigger] objects[j],
                    x,
                    y,
                ) by {
                    assert(objects.drop_last()[j] == objects[j]);
                }
            },
        }
    }
}

proof fn lemma_first_fighter_at_is(objects: Seq<Entity>, x: int, y: int, i: int)
    requires
        0 <= i < objects.len(),
        fights_at(objects[i], x, y),
        forall|j: int| 0 <= j < i ==> !fights_at(#[trigger] objects[j], x, y),
    ensures
        first_fighter_at(objects, x, y) == Some(i),
{
    lemma_first_fighter_at(objects, x, y);
}

/// The place of the first fighter on `(x, y)`.
pub fn fighter_at(x: i32, y: i32, objects: &Vec<GameObject>) -> (found: Option<usize>)
    ensures
        match first_fighter_at(entities(objects@), x as int, y as int) {
            Some(i) => found == Some(i as usize) && 0 <= i < objects.len(),
            None => found is None,
        },
{
    let mut id: usize = 0;
    while id < objects.len()
        invariant
            id <= objects.len(),
            forall|j: int|
                0 <= j < id ==> !fights_at(#[trigger] entities(objects@)[j], x as int, y as int),
        decreases objects.len() - id,
    {
        assert(entities(objects@)[id as int] == objects[id as int]@);
        if objects[id].fighter.is_some() && objects[id].x == x && objects[id].y == y {
            proof {
                lemma_first_fighter_at_is(entities(objects@), x as int, y as int, id as int);
            }
            return Some(id);
        }
        id += 1;
    }
    proof {
        lemma_first_fighter_at(entities(objects@), x as int, y as int);
    }
    None
}

/// The cell next to the player in the direction `(dx, dy)`.
pub open spec fn ahead(objects: Seq<Entity>, dx: int, dy: int) -> (int, int) {
    (objects[PLAYER as int].x + dx, objects[PLAYER as int].y + dy)
}

/// Whether the player can move or attack in the direction `(dx, dy)`: the
/// cell there is within the machine's integers; a fighter on it is another
/// than the player and the attack on it is within the machine's integers;
/// without a fighter the cell is on the grid.
pub open spec fn can_move_or_attack(
    objects: Seq<Entity>,
    session: Session,
    dx: int,
    dy: int,
) -> bool {
    let cell = ahead(objects, dx, dy);
    &&& objects.len() > PLAYER
    &&& fits(cell.0)
    &&& fits(cell.1)
    &&& match first_fighter_at(objects, cell.0, cell.1) {
        Some(target) => target != PLAYER && can_attack(
            objects[PLAYER as int],
            objects[target],
            session.inventory,
        ),
        None => grid_ok(session.map) && on_grid(cell.0, cell.1),
    }
}

/// The objects after the player has moved or attacked in the direction
/// `(dx, dy)`.
pub open spec fn after_move_or_attack(
    objects: Seq<Entity>,
    session: Session,
    dx: int,
    dy: int,
) -> Seq<Entity> {
    let cell = ahead(objects, dx, dy);
    match first_fighter_at(objects, cell.0, cell.1) {
        Some(target) => objects.update(
            PLAYER as int,
            attacker_after(objects[PLAYER as int], objects[target], session.inventory),
        ).update(target, target_after(objects[PLAYER as int], objects[target], session.inventory)),
        None => moved(objects, session.map, PLAYER as int, dx, dy),
    }
}

/// The lines that the player's move or attack adds to the log.
pub open spec fn move_or_attack_lines(
    objects: Seq<Entity>,
    session: Session,
    dx: int,
    dy: int,
) -> Seq<Line> {
    let cell = ahead(objects, dx, dy);
    match first_fighter_at(objects, cell.0, cell.1) {
        Some(target) => attack_lines(objects[PLAYER as int], objects[target], session.inventory),
        None => seq![],
    }
}

/// The player attacks the first fighter on the cell in the direction
/// `(dx, dy)`, or moves there if no fighter is on it and nothing blocks.
pub fn move_or_attack(dx: i32, dy: i32, game: &mut Game, objects: &mut Vec<GameObject>)
    requires
        can_move_or_attack(entities(old(objects)@), old(game)@, dx as int, dy as int),
    ensures
        entities(final(objects)@) == after_move_or_attack(
            entities(old(objects)@),
            old(game)@,
            dx as int,
            dy as int,
        ),
        final(game)@ == (Session {
            log: old(game)@.log + move_or_attack_lines(
                entities(old(objects)@),
                old(game)@,
                dx as int,
                dy as int,
            ),
            ..old(game)@
        }),
{
    let ghost before = entities(objects@);
    assert(before[PLAYER as int] == objects[PLAYER as int]@);
    let x = objects[PLAYER].x + dx;
    let y = objects[PLAYER].y + dy;
    proof {
        lemma_first_fighter_at(before, x as int, y as int);
    }
    match fighter_at(x, y, objects) {
        Some(target_id) => {
            assert(before[target_id as int] == objects[target_id as int]@);
            let (player, target) = mut_two(PLAYER, target_id, objects);
            player.attack(target, game);
            assert(entities(objects@) =~= after_move_or_attack(
                before,
                old(game)@,
                dx as int,
                dy as int,
            ));
        },
        None => {
            move_by(PLAYER, dx, dy, game, objects);
            assert(game@.log =~= old(game)@.log + move_or_attack_lines(
                before,
                old(game)@,
                dx as int,
                dy as int,
            ));
        },
    }
}

/// The experience that the step from `level` to the next level takes.
pub open spec fn level_up_xp(level: int) -> int {
    LEVEL_UP_BASE + level * LEVEL_UP_FACTOR
}

/// The experience of an entity; none for one that does not fight.
pub open spec fn xp_of(e: Entity) -> int {
    match e.fighter {
        Some(f) => f.xp as int,
        None => 0,
    }
}

/// Whether the player has the experience for the next level.
pub open spec fn level_up_due(player: Entity) -> bool {
    xp_of(player) >= level_up_xp(player.level as int)
}

/// What the player can raise at a new level.
#[derive(Clone, Copy, Debug, PartialEq, Eq, Structural)]
pub enum LevelUpChoice {
    Constitution,
    Strength,
    Agility,
}

/// Looks whether the player has the experience for the next level. If so,
/// the player's level goes up by one, that is logged, and `true` comes
/// back: a choice of what to raise is then due, see [`finish_level_up`].
pub fn try_level_up(objects: &mut Vec<GameObject>, game: &mut Game) -> (due: bool)
    requires
        old(objects).len() > PLAYER,
        fits(level_up_xp(old(objects)[PLAYER as int].level as int)),
        level_up_due(old(objects)[PLAYER as int]@) ==> fits(old(objects)[PLAYER as int].level + 1),
    ensures
        due == level_up_due(old(objects)[PLAYER as int]@),
        entities(final(objects)@) == if due {
            entities(old(objects)@).update(
                PLAYER as int,
                Entity {
                    level: (old(objects)[PLAYER as int].level + 1) as i32,
                    ..old(objects)[PLAYER as int]@
                },
            )
        } else {
            entities(old(objects)@)
        },
        final(game)@ == (Session {
            log: if due {
                old(game)@.log.push(
                    (log_message(old(objects)[PLAYER as int].level + 1), spec_yellow()),
                )
            } else {
                old(game)@.log
            },
            ..old(game)@
        }),
{
    assert(entities(objects@)[PLAYER as int] == objects[PLAYER as int]@);
    let needed: i64 = LEVEL_UP_BASE as i64 + LEVEL_UP_FACTOR as i64 * objects[PLAYER].level as i64;
    let xp: i32 = match objects[PLAYER].fighter {
        Some(f) => f.xp,
        None => 0,
    };
    if xp as i64 >= needed {
        objects[PLAYER].level += 1;
        game.log.add(create_log_message(objects[PLAYER].level).as_str(), yellow());
        assert(entities(objects@) =~= entities(old(objects)@).update(
            PLAYER as int,
            objects[PLAYER as int]@,
        ));
        true
    } else {
        false
    }
}

/// The three lines of the menu at a new level, in the order of
/// [`level_up_choice`].
pub fn level_up_options(fighter: &Fighter) -> (options: Vec<String>)
    ensures
        options.len() == 3,
        options[0]@ == constitution_option(fighter.base_max_hp as int),
        options[1]@ == strength_option(fighter.base_power as int),
        options[2]@ == agility_option(fighter.base_defense as int),
{
    let mut options: Vec<String> = Vec::new();
    options.push(create_constitution_option(fighter.base_max_hp));
    options.push(create_stength_option(fighter.base_power));
    options.push(create_agility_option(fighter.base_defense));
    options
}

/// The choice that a line of the menu stands for; none for anything but
/// the three lines, so that the menu is shown again.
pub fn level_up_choice(index: Option<usize>) -> (choice: Option<LevelUpChoice>)
    ensures
        choice == match index {
            Some(i) => if i == 0 {
                Some(LevelUpChoice::Constitution)
            } else if i == 1 {
                Some(LevelUpChoice::Strength)
            } else if i == 2 {
                Some(LevelUpChoice::Agility)
            } else {
                None
            },
            None => None,
        },
{
    match index {
        Some(0) => Some(LevelUpChoice::Constitution),
        Some(1) => Some(LevelUpChoice::Strength),
        Some(2) => Some(LevelUpChoice::Agility),
        _ => None,
    }
}

/// The fighter after the step to `level` with the choice made: the
/// experience that the step took is paid, and the chosen statistic is
/// raised.
pub open spec fn levelled(f: Fighter, level: int, choice: LevelUpChoice) -> Fighter {
    let paid = Fighter { xp: (f.xp - level_up_xp(level - 1)) as i32, ..f };
    match choice {
        LevelUpChoice::Constitution => Fighter {
            base_max_hp: (f.base_max_hp + LEVEL_UP_HP) as i32,
            hp: (f.hp + LEVEL_UP_HP) as i32,
            ..paid
        },
        LevelUpChoice::Strength => Fighter { base_power: (f.base_power + 1) as i32, ..paid },
        LevelUpChoice::Agility => Fighter { base_defense: (f.base_defense + 1) as i32, ..paid },
    }
}

/// Whether the step to `level` with the choice made stays within the
/// machine's integers.
pub open spec fn can_level(f: Fighter, level: int, choice: LevelUpChoice) -> bool {
    &&& fits(level - 1)
    &&& fits(level_up_xp(level - 1))
    &&& fits(f.xp - level_up_xp(level - 1))
    &&& match choice {
        LevelUpChoice::Constitution => fits(f.base_max_hp + LEVEL_UP_HP) && fits(
            f.hp + LEVEL_UP_HP,
        ),
        LevelUpChoice::Strength => fits(f.base_power + 1),
        LevelUpChoice::Agility => fits(f.base_defense + 1),
    }
}

/// Ends the step to a new level, which [`try_level_up`] began, with the
/// choice of the player: the experience that the step took is paid, and the
/// chosen statistic is raised.
pub fn finish_level_up(objects: &mut Vec<GameObject>, choice: LevelUpChoice)
    requires
        old(objects).len() > PLAYER,
        old(objects)[PLAYER as int].fighter is Some,
        can_level(
            old(objects)[PLAYER as int].fighter->0,
            old(objects)[PLAYER as int].level as int,
            choice,
        ),
    ensures
        entities(final(objects)@) == entities(old(objects)@).update(
            PLAYER as int,
            Entity {
                fighter: Some(
                    levelled(
                        old(objects)[PLAYER as int].fighter->0,
                        old(objects)[PLAYER as int].level as int,
                        choice,
                    ),
                ),
                ..old(objects)[PLAYER as int]@
            },
        ),
{
    assert(entities(objects@)[PLAYER as int] == objects[PLAYER as int]@);
    let level = objects[PLAYER].level;
    let needed: i32 = (LEVEL_UP_BASE as i64 + LEVEL_UP_FACTOR as i64 * (level as i64 - 1)) as i32;
    if let Some(ref mut fighter) = objects[PLAYER].fighter {
        fighter.xp -= needed;
        match choice {
            LevelUpChoice::Constitution => {
                fighter.base_max_hp += LEVEL_UP_HP;
                fighter.hp += LEVEL_UP_HP;
            },
            LevelUpChoice::Strength => {
                fighter.base_power += 1;
            },
            LevelUpChoice::Agility => {
                fighter.base_defense += 1;
            },
        }
    }
    assert(entities(objects@) =~= entities(old(objects)@).update(
        PLAYER as int,
        objects[PLAYER as int]@,
    ));
}

/// Whether the player can move or attack in the direction `(dx, dy)`.
pub fn move_is_safe(dx: i32, dy: i32, game: &Game, objects: &Vec<GameObject>) -> (b: bool)
    ensures
        b == can_move_or_attack(entities(objects@), game@, dx as int, dy as int),
{
    if objects.len() <= PLAYER {
        return false;
    }
    assert(entities(objects@)[PLAYER as int] == objects[PLAYER as int]@);
    let wide_x: i128 = objects[PLAYER].x as i128 + dx as i128;
    let wide_y: i128 = objects[PLAYER].y as i128 + dy as i128;
    if !is_small(wide_x) || !is_small(wide_y) {
        return false;
    }
    let x: i32 = wide_x as i32;
    let y: i32 = wide_y as i32;
    proof {
        lemma_first_fighter_at(entities(objects@), x as int, y as int);
    }
    match fighter_at(x, y, objects) {
        Some(target) => {
            assert(entities(objects@)[target as int] == objects[target as int]@);
            target != PLAYER && objects[PLAYER].can_attack(&objects[target], game)
        },
        None => grid_is_whole(&game.map) && 0 <= x && x < MAP_WIDTH && 0 <= y && y < MAP_HEIGHT,
    }
}

/// Whether the experience for the player's next level can be looked at
/// within the machine's integers.
pub fn level_up_is_safe(objects: &Vec<GameObject>) -> (b: bool)
    ensures
        b == (objects.len() > PLAYER && fits(level_up_xp(objects[PLAYER as int].level as int))
            && (level_up_due(objects[PLAYER as int]@) ==> fits(objects[PLAYER as int].level + 1))),
{
    if objects.len() <= PLAYER {
        return false;
    }
    let level = objects[PLAYER].level;
    let needed: i128 = LEVEL_UP_BASE as i128 + level as i128 * LEVEL_UP_FACTOR as i128;
    if !is_small(needed) {
        return false;
    }
    let xp: i32 = match objects[PLAYER].fighter {
        Some(f) => f.xp,
        None => 0,
    };
    (xp as i128) < needed || level < i32::MAX
}

/// Whether the step to a new level can be ended with the choice made.
pub fn level_choice_is_safe(objects: &Vec<GameObject>, choice: LevelUpChoice) -> (b: bool)
    ensures
        b == (objects.len() > PLAYER && objects[PLAYER as int].fighter is Some && can_level(
            objects[PLAYER as int].fighter->0,
            objects[PLAYER as int].level as int,
            choice,
        )),
{
    if objects.len() <= PLAYER {
        return false;
    }
    let level = objects[PLAYER].level;
    let f = match objects[PLAYER].fighter {
        Some(f) => f,
        None => {
            return false;
        },
    };
    let earlier: i128 = level as i128 - 1;
    let factor: i128 = LEVEL_UP_FACTOR as i128;
    assert(factor == 150);
    let needed: i128 = LEVEL_UP_BASE as i128 + factor * earlier;
    assert(needed == level_up_xp(level - 1));
    if !is_small(level as i128 - 1) || !is_small(needed) || !is_small(f.xp as i128 - needed) {
        return false;
    }
    match choice {
        LevelUpChoice::Constitution => is_small(f.base_max_hp as i128 + LEVEL_UP_HP as i128)
            && is_small(f.hp as i128 + LEVEL_UP_HP as i128),
        LevelUpChoice::Strength => is_small(f.base_power as i128 + 1),
        LevelUpChoice::Agility => is_small(f.base_defense as i128 + 1),
    }
}

} // verus!
