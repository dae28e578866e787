//! The course of a game: starting it, the monsters' round, going down the
//! stairs, and what each command of the player does.

use vstd::prelude::*;
use vstd::string::*;
use crate::ai::{after_turn, can_take_turn, is_stumble, take_turn, turn_lines, turned};
use crate::color::{red, sky, spec_red, spec_sky, spec_violet, spec_white, violet, white};
use crate::combat::{Stat, effective, fits, healed, is_small};
use crate::constants::{MAX_ROOMS, PLAYER};
use crate::dungeon::{Rect, half};
use crate::entity::{
    DeathCallback, Entity, Equipment, Fighter, Game, GameObject, Item, Line, MessageLog, Session,
    Slot, entities, tiles,
};
use crate::fov::FovMap;
use crate::generator::{arranged, create_map, laid_out};
use crate::items::{
    can_use, drop_item, drop_lines, dropped, ground_after_pickup, inventory_after_pickup,
    objects_after_use, pick_item_up, pickup_lines, session_after_use, use_is_safe, use_item,
};
use crate::player::{
    PlayerAction, after_move_or_attack, can_move_or_attack, move_is_safe, move_or_attack,
    move_or_attack_lines,
};
use crate::population::plain;
use crate::spell_effects::Target;

verus! {

/// The session after the turn of the object at `id`.
pub open spec fn session_after_turn(
    objects: Seq<Entity>,
    session: Session,
    fov: FovMap,
    id: int,
) -> Session {
    Session { log: session.log + turn_lines(objects, session, fov, id), ..session }
}

/// Whether the objects from `from` on can take their turns one after the
/// other, whatever steps the confused ones stumble: `remaining` is how many
/// objects are left to act.
pub open spec fn can_round(
    objects: Seq<Entity>,
    session: Session,
    fov: FovMap,
    from: int,
    remaining: nat,
) -> bool
    decreases remaining,
{
    if remaining == 0 {
        true
    } else {
        forall|dx: int, dy: int|
            is_stumble(dx, dy) ==> #[trigger] can_take_turn(objects, session, fov, from, dx, dy)
                && can_round(
                after_turn(objects, session, fov, from, dx, dy),
                session_after_turn(objects, session, fov, from),
                fov,
                from + 1,
                (remaining - 1) as nat,
            )
    }
}

/// Whether `objects_end` and `session_end` can come of the turns of the
/// objects from `from` on, taken one after the other, for some steps that
/// the confused ones stumble.
pub open spec fn round_from(
    objects: Seq<Entity>,
    session: Session,
    fov: FovMap,
    from: int,
    remaining: nat,
    objects_end: Seq<Entity>,
    session_end: Session,
) -> bool
    decreases remaining,
{
    if remaining == 0 {
        objects_end == objects && session_end == session
    } else {
        exists|dx: int, dy: int|
            is_stumble(dx, dy) && round_from(
                #[trigger] after_turn(objects, session, fov, from, dx, dy),
                session_after_turn(objects, session, fov, from),
                fov,
                from + 1,
                (remaining - 1) as nat,
                objects_end,
                session_end,
            )
    }
}

/// The monsters' round: every object that has a behaviour takes its turn,
/// in the order of the objects.
pub fn monsters_turn(objects: &mut Vec<GameObject>, fov: &FovMap, game: &mut Game)
    requires
        can_round(entities(old(objects)@), old(game)@, *fov, 0, old(objects).len() as nat),
    ensures
        round_from(
            entities(old(objects)@),
            old(game)@,
            *fov,
            0,
            old(objects).len() as nat,
            entities(final(objects)@),
            final(game)@,
        ),
{
    let ghost objects0 = entities(objects@);
    let ghost session0 = game@;
    let count = objects.len();
    let mut id: usize = 0;
    while id < count
        invariant
            id <= count,
            objects.len() == count,
            objects0.len() == count,
            can_round(entities(objects@), game@, *fov, id as int, (count - id) as nat),
            forall|objects_end: Seq<Entity>, session_end: Session|
                #[trigger] round_from(
                    entities(objects@),
                    game@,
                    *fov,
                    id as int,
                    (count - id) as nat,
                    objects_end,
                    session_end,
                ) ==> round_from(
                    objects0,
                    session0,
                    *fov,
                    0,
                    count as nat,
                    objects_end,
                    session_end,
                ),
        decreases count - id,
    {
        let ghost before = entities(objects@);
        let ghost session_before = game@;
        let ghost left = (count - id) as nat;
        assert(before[id as int] == objects[id as int]@);
        if objects[id].ai.is_some() {
            take_turn(id, objects, fov, game);
        } else {
            assert(game@.log =~= session_before.log + turn_lines(
                before,
                session_before,
                *fov,
                id as int,
            ));
            assert(is_stumble(0, 0));
            assert(turned(
                before,
                session_before,
                *fov,
                id as int,
                0,
                0,
                entities(objects@),
                game@,
            ));
        }
        proof {
            let (dx, dy) = choose|dx: int, dy: int|
                is_stumble(dx, dy) && #[trigger] turned(
                    before,
                    session_before,
                    *fov,
                    id as int,
                    dx,
                    dy,
                    entities(objects@),
                    game@,
                );
            assert(can_take_turn(before, session_before, *fov, id as int, dx, dy));
            assert(entities(objects@) == after_turn(
                before,
                session_before,
                *fov,
                id as int,
                dx,
                dy,
            ));
            assert(game@ == session_after_turn(before, session_before, *fov, id as int));
            assert(entities(objects@).len() == count) by {
                lemma_after_turn_len(before, session_before, *fov, id as int, dx, dy);
            }
            assert forall|objects_end: Seq<Entity>, session_end: Session|
                #[trigger] round_from(
                    entities(objects@),
                    game@,
                    *fov,
                    id + 1,
                    (left - 1) as nat,
                    objects_end,
                    session_end,
                ) implies round_from(
                objects0,
                session0,
                *fov,
                0,
                count as nat,
                objects_end,
                session_end,
            ) by {
                assert(round_from(
                    before,
                    session_before,
                    *fov,
                    id as int,
                    left,
                    objects_end,
                    session_end,
                ));
            }
        }
        id += 1;
    }
    assert(round_from(entities(objects@), game@, *fov, count as int, 0, entities(objects@), game@));
}

/// A turn keeps the number of objects.
pub proof fn lemma_after_turn_len(
    objects: Seq<Entity>,
    session: Session,
    fov: FovMap,
    id: int,
    dx: int,
    dy: int,
)
    requires
        0 <= id < objects.len(),
        objects.len() > PLAYER,
    ensures
        after_turn(objects, session, fov, id, dx, dy).len() == objects.len(),
{
}

/// The player as a game begins, before it is put into the dungeon.
pub open spec fn hero() -> Entity {
    Entity {
        alive: true,
        fighter: Some(
            Fighter {
                base_max_hp: 100,
                hp: 100,
                base_defense: 1,
                base_power: 2,
                on_death: DeathCallback::Player,
                xp: 0,
            },
        ),
        ..plain(0, 0, '@', "Player"@, spec_white(), true)
    }
}

/// The dagger that the player has from the beginning, worn in the left
/// hand.
pub open spec fn dagger() -> Entity {
    Entity {
        item: Some(Item::Sword),
        equipment: Some(
            Equipment {
                slot: Slot::LeftHand,
                equipped: true,
                power_bonus: 2,
                defense_bonus: 0,
                hp_bonus: 0,
            },
        ),
        ..plain(0, 0, '-', "Dagger"@, spec_sky(), false)
    }
}

/// The line that greets the player.
pub open spec fn welcome_line() -> Line {
    (
        "Welcome stranger! Prepare to perish in the Tombs of the Ancient Kings."@,
        spec_red(),
    )
}

/// Whether `objects` and `session` are a dungeon of the given level, newly
/// generated around the player `first`: for some rooms, the map is their
/// dungeon and the objects are the player, their population and the
/// stairs.
pub open spec fn fresh_level(first: Entity, objects: Seq<Entity>, session: Session) -> bool {
    exists|rooms: Seq<Rect>|
        1 <= rooms.len() <= MAX_ROOMS && #[trigger] laid_out(session.map, rooms) && arranged(
            first,
            objects,
            rooms,
            session.dungeon_level,
        )
}

/// Begins a game: the player on the first level of a new dungeon, with a
/// dagger in the left hand and a greeting in the log.
pub fn new_game() -> (result: (Vec<GameObject>, Game))
    ensures
        fresh_level(hero(), entities(result.0@), result.1@),
        result.1@.dungeon_level == 1,
        result.1@.inventory == seq![dagger()],
        result.1@.log == seq![welcome_line()],
{
    let mut player = GameObject::new(0, 0, '@', "Player", white(), true);
    player.alive = true;
    player.fighter = Some(
        Fighter {
            base_max_hp: 100,
            hp: 100,
            base_defense: 1,
            base_power: 2,
            on_death: DeathCallback::Player,
            xp: 0,
        },
    );
    let level: u32 = 1;
    let mut game_objects: Vec<GameObject> = Vec::new();
    game_objects.push(player);
    let ghost first = game_objects[0]@;
    let map = create_map(&mut game_objects, level);
    let ghost rooms = choose|rooms: Seq<Rect>|
        1 <= rooms.len() <= MAX_ROOMS && #[trigger] laid_out(tiles(map@), rooms) && arranged(
            first,
            entities(game_objects@),
            rooms,
            level,
        );
    let mut game = Game { map, log: Vec::new(), inventory: Vec::new(), dungeon_level: 1 };
    let mut blade = GameObject::new(0, 0, '-', "Dagger", sky(), false);
    blade.item = Some(Item::Sword);
    blade.equipment = Some(
        Equipment {
            equipped: true,
            slot: Slot::LeftHand,
            hp_bonus: 0,
            defense_bonus: 0,
            power_bonus: 2,
        },
    );
    game.inventory.push(blade);
    game.log.add("Welcome stranger! Prepare to perish in the Tombs of the Ancient Kings.", red());
    assert(game@.inventory =~= seq![dagger()]);
    assert(game@.log =~= seq![welcome_line()]);
    assert(laid_out(game@.map, rooms));
    (game_objects, game)
}

/// The player after the rest before the next level: half of its most hit
/// points come back, up to its most.
pub open spec fn rested(player: Entity, inventory: Seq<Entity>) -> Entity {
    healed(
        player,
        half(effective(player, inventory, Stat::MaxHp)),
        effective(player, inventory, Stat::MaxHp),
    )
}

/// The two lines that going down the stairs adds to the log.
pub open spec fn descent_lines() -> Seq<Line> {
    seq![
        ("You take a moment to rest and recover your strength."@, spec_violet()),
        (
            "After a rare moment of peace, you descend deeper into the heart of the dungeon."@,
            spec_red(),
        ),
    ]
}

/// Whether the player can go down to the next level within the machine's
/// integers.
pub open spec fn can_descend(objects: Seq<Entity>, session: Session) -> bool {
    &&& objects.len() > PLAYER
    &&& fits(effective(objects[PLAYER as int], session.inventory, Stat::MaxHp))
    &&& objects[PLAYER as int].fighter is Some ==> fits(
        objects[PLAYER as int].fighter->0.hp + half(
            effective(objects[PLAYER as int], session.inventory, Stat::MaxHp),
        ),
    )
    &&& session.dungeon_level < u32::MAX
}

/// Whether `objects_after` and `session_after` can come of going down the
/// stairs: the player has rested, the level is one deeper, the dungeon is a
/// new one of that level around the player, and the rest and the descent
/// are logged.
pub open spec fn descended(
    objects: Seq<Entity>,
    session: Session,
    objects_after: Seq<Entity>,
    session_after: Session,
) -> bool {
    &&& session_after.dungeon_level == session.dungeon_level + 1
    &&& session_after.inventory == session.inventory
    &&& session_after.log == session.log + descent_lines()
    &&& fresh_level(rested(objects[PLAYER as int], session.inventory), objects_after, session_after)
}

/// Goes down to the next level: the player rests, and a new dungeon of the
/// next level replaces the old one.
pub fn next_level(objects: &mut Vec<GameObject>, game: &mut Game)
    requires
        can_descend(entities(old(objects)@), old(game)@),
    ensures
        descended(entities(old(objects)@), old(game)@, entities(final(objects)@), final(game)@),
{
    assert(entities(objects@)[PLAYER as int] == objects[PLAYER as int]@);
    game.log.add("You take a moment to rest and recover your strength.", violet());
    let max_hp = objects[PLAYER].max_hp(game);
    let heal_hp: i32 = if max_hp >= 0 {
        max_hp / 2
    } else {
        -((-(max_hp as i64)) / 2) as i32
    };
    objects[PLAYER].heal(heal_hp, game);
    game.log.add(
        "After a rare moment of peace, you descend deeper into the heart of the dungeon.",
        red(),
    );
    game.dungeon_level += 1;
    let ghost first = objects[PLAYER as int]@;
    let map = create_map(objects, game.dungeon_level);
    let ghost rooms = choose|rooms: Seq<Rect>|
        1 <= rooms.len() <= MAX_ROOMS && #[trigger] laid_out(tiles(map@), rooms) && arranged(
            first,
            entities(objects@),
            rooms,
            game.dungeon_level,
        );
    game.map = map;
    assert(game@.log =~= old(game)@.log + descent_lines());
    assert(laid_out(game@.map, rooms));
    assert(first == rested(old(objects)[PLAYER as int]@, old(game)@.inventory));
}

/// A command of the player, as the input gives it.
#[derive(Clone, Copy, Debug, PartialEq, Eq, Structural)]
pub enum Action {
    /// Move or attack in a direction.
    Move(i32, i32),
    /// Let a turn pass.
    Wait,
    /// Pick up an item from the player's cell.
    PickUp,
    /// Use the item at this place of the inventory, on this target.
    Use(usize, Target),
    /// Drop the item at this place of the inventory.
    Drop(usize),
    /// Go down the stairs.
    Descend,
    /// Leave the game.
    Exit,
    /// Anything else.
    Other,
}

/// Whether the entity is an item on the cell `(x, y)`.
pub open spec fn lies_at(e: Entity, x: int, y: int) -> bool {
    e.x == x && e.y == y && e.item is Some
}

/// Whether `found` is the first item on the player's cell.
pub open spec fn is_first_item_here(objects: Seq<Entity>, found: Option<usize>) -> bool {
    let x = objects[PLAYER as int].x as int;
    let y = objects[PLAYER as int].y as int;
    match found {
        Some(id) => id < objects.len() && lies_at(objects[id as int], x, y) && forall|j: int|
            0 <= j < id ==> !lies_at(#[trigger] objects[j], x, y),
        None => forall|j: int| 0 <= j < objects.len() ==> !lies_at(#[trigger] objects[j], x, y),
    }
}

/// The first item on the player's cell.
pub open spec fn first_item_here(objects: Seq<Entity>) -> Option<usize> {
    choose|found: Option<usize>| is_first_item_here(objects, found)
}

/// Only one answer is the first item on the player's cell.
pub proof fn lemma_first_item_here_is_unique(
    objects: Seq<Entity>,
    a: Option<usize>,
    b: Option<usize>,
)
    requires
        is_first_item_here(objects, a),
        is_first_item_here(objects, b),
    ensures
        a == b,
{
}

/// The first item on the player's cell.
pub fn item_here(objects: &Vec<GameObject>) -> (found: Option<usize>)
    requires
        objects.len() > PLAYER,
    ensures
        is_first_item_here(entities(objects@), found),
        found == first_item_here(entities(objects@)),
{
    assert(entities(objects@)[PLAYER as int] == objects[PLAYER as int]@);
    let x = objects[PLAYER].x;
    let y = objects[PLAYER].y;
    let mut found: Option<usize> = None;
    let mut id: usize = 0;
    while id < objects.len() && found.is_none()
        invariant
            id <= objects.len(),
            match found {
                Some(i) => i < objects.len() && lies_at(
                    entities(objects@)[i as int],
                    x as int,
                    y as int,
                ) && forall|j: int|
                    0 <= j < i ==> !lies_at(#[trigger] entities(objects@)[j], x as int, y as int),
                None => forall|j: int|
                    0 <= j < id ==> !lies_at(#[trigger] entities(objects@)[j], x as int, y as int),
            },
        decreases objects.len() - id + if found is None { 1int } else { 0int },
    {
        assert(entities(objects@)[id as int] == objects[id as int]@);
        if objects[id].x == x && objects[id].y == y && objects[id].item.is_some() {
            found = Some(id);
        } else {
            id += 1;
        }
    }
    proof {
        assert(is_first_item_here(entities(objects@), found));
        lemma_first_item_here_is_unique(
            entities(objects@),
            found,
            first_item_here(entities(objects@)),
        );
    }
    found
}

/// Whether the entity is the stairs on the cell `(x, y)`.
pub open spec fn is_stairs_at(e: Entity, x: int, y: int) -> bool {
    e.x == x && e.y == y && e.name == "stairs"@
}

/// Whether the player stands on the stairs.
pub open spec fn on_stairs(objects: Seq<Entity>) -> bool {
    exists|i: int|
        0 <= i < objects.len() && is_stairs_at(
            #[trigger] objects[i],
            objects[PLAYER as int].x as int,
            objects[PLAYER as int].y as int,
        )
}

/// Whether the player stands on the stairs.
pub fn player_on_stairs(objects: &Vec<GameObject>) -> (b: bool)
    requires
        objects.len() > PLAYER,
    ensures
        b == on_stairs(entities(objects@)),
{
    assert(entities(objects@)[PLAYER as int] == objects[PLAYER as int]@);
    let x = objects[PLAYER].x;
    let y = objects[PLAYER].y;
    let stairs_name = String::from_str("stairs");
    let mut id: usize = 0;
    while id < objects.len()
        invariant
            id <= objects.len(),
            stairs_name@ == "stairs"@,
            x == entities(objects@)[PLAYER as int].x,
            y == entities(objects@)[PLAYER as int].y,
            forall|j: int|
                0 <= j < id ==> !is_stairs_at(#[trigger] entities(objects@)[j], x as int, y as int),
        decreases objects.len() - id,
    {
        assert(entities(objects@)[id as int] == objects[id as int]@);
        if objects[id].x == x && objects[id].y == y && objects[id].name == stairs_name {
            return true;
        }
        id += 1;
    }
    false
}

/// Whether the command can be carried out.
pub open spec fn can_handle(
    action: Action,
    objects: Seq<Entity>,
    session: Session,
    fov: FovMap,
) -> bool {
    &&& objects.len() > PLAYER
    &&& objects[PLAYER as int].alive ==> match action {
        Action::Move(dx, dy) => can_move_or_attack(objects, session, dx as int, dy as int),
        Action::Use(id, target) => can_use(objects, session, fov, id as int, target),
        Action::Drop(id) => id < session.inventory.len(),
        Action::Descend => on_stairs(objects) ==> can_descend(objects, session),
        _ => true,
    }
}

/// Whether `objects_after`, `session_after` and `result` can come of the
/// command. A dead player can only leave. A move, an attack and a wait
/// take a turn; picking up, using, dropping and going down the stairs
/// take none; leaving ends the game.
pub open spec fn handled(
    action: Action,
    objects: Seq<Entity>,
    session: Session,
    fov: FovMap,
    objects_after: Seq<Entity>,
    session_after: Session,
    result: PlayerAction,
) -> bool {
    let same = objects_after == objects && session_after == session;
    if action == Action::Exit {
        same && result == PlayerAction::Exit
    } else if !objects[PLAYER as int].alive {
        same && result == PlayerAction::DidntTakeTurn
    } else {
        match action {
            Action::Move(dx, dy) => {
                &&& result == PlayerAction::TookTurn
                &&& objects_after == after_move_or_attack(objects, session, dx as int, dy as int)
                &&& session_after == (Session {
                    log: session.log + move_or_attack_lines(
                        objects,
                        session,
                        dx as int,
                        dy as int,
                    ),
                    ..session
                })
            },
            Action::Wait => same && result == PlayerAction::TookTurn,
            Action::PickUp => {
                &&& result == PlayerAction::DidntTakeTurn
                &&& match first_item_here(objects) {
                    Some(id) => {
                        &&& objects_after == ground_after_pickup(
                            objects,
                            session.inventory,
                            id as int,
                        )
                        &&& session_after == (Session {
                            inventory: inventory_after_pickup(
                                session.inventory,
                                objects[id as int],
                            ),
                            log: session.log + pickup_lines(session.inventory, objects[id as int]),
                            ..session
                        })
                    },
                    None => same,
                }
            },
            Action::Use(id, target) => {
                &&& result == PlayerAction::DidntTakeTurn
                &&& objects_after == objects_after_use(objects, session, fov, id as int, target)
                &&& session_after == session_after_use(objects, session, fov, id as int, target)
            },
            Action::Drop(id) => {
                &&& result == PlayerAction::DidntTakeTurn
                &&& objects_after == objects.push(
                    dropped(
                        session.inventory[id as int],
                        objects[PLAYER as int].x,
                        objects[PLAYER as int].y,
                    ),
                )
                &&& session_after == (Session {
                    inventory: session.inventory.remove(id as int),
                    log: session.log + drop_lines(session.inventory[id as int]),
                    ..session
                })
            },
            Action::Descend => {
                &&& result == PlayerAction::DidntTakeTurn
                &&& if on_stairs(objects) {
                    descended(objects, session, objects_after, session_after)
                } else {
                    same
                }
            },
            _ => same && result == PlayerAction::DidntTakeTurn,
        }
    }
}

/// Carries out a command of the player and says whether it took a turn.
pub fn handle_keys(
    action: Action,
    objects: &mut Vec<GameObject>,
    game: &mut Game,
    fov: &FovMap,
) -> (result: PlayerAction)
    requires
        can_handle(action, entities(old(objects)@), old(game)@, *fov),
    ensures
        handled(
            action,
            entities(old(objects)@),
            old(game)@,
            *fov,
            entities(final(objects)@),
            final(game)@,
            result,
        ),
{
    assert(entities(objects@)[PLAYER as int] == objects[PLAYER as int]@);
    let player_alive = objects[PLAYER].alive;
    match (action, player_alive) {
        (Action::Move(dx, dy), true) => {
            move_or_attack(dx, dy, game, objects);
            PlayerAction::TookTurn
        },
        (Action::Wait, true) => PlayerAction::TookTurn,
        (Action::PickUp, true) => {
            if let Some(item_id) = item_here(objects) {
                assert(entities(objects@)[item_id as int] == objects[item_id as int]@);
                pick_item_up(item_id, objects, game);
            }
            PlayerAction::DidntTakeTurn
        },
        (Action::Use(inventory_index, target), true) => {
            use_item(inventory_index, objects, fov, game, target);
            PlayerAction::DidntTakeTurn
        },
        (Action::Drop(inventory_index), true) => {
            drop_item(inventory_index, game, objects);
            PlayerAction::DidntTakeTurn
        },
        (Action::Descend, true) => {
            if player_on_stairs(objects) {
                next_level(objects, game);
            }
            PlayerAction::DidntTakeTurn
        },
        (Action::Exit, _) => PlayerAction::Exit,
        _ => PlayerAction::DidntTakeTurn,
    }
}

/// Whether the monsters act after a command that ended with `result`: the
/// player is alive and the command took a turn.
pub open spec fn monsters_act(objects: Seq<Entity>, result: PlayerAction) -> bool {
    objects[PLAYER as int].alive && result != PlayerAction::DidntTakeTurn
}

/// What follows a command of the player that did not end the game: the
/// monsters' round, if the player is alive and the command took a turn.
pub fn end_turn(result: PlayerAction, objects: &mut Vec<GameObject>, fov: &FovMap, game: &mut Game)
    requires
        old(objects).len() > PLAYER,
        monsters_act(entities(old(objects)@), result) ==> can_round(
            entities(old(objects)@),
            old(game)@,
            *fov,
            0,
            old(objects).len() as nat,
        ),
    ensures
        if monsters_act(entities(old(objects)@), result) {
            round_from(
                entities(old(objects)@),
                old(game)@,
                *fov,
                0,
                old(objects).len() as nat,
                entities(final(objects)@),
                final(game)@,
            )
        } else {
            entities(final(objects)@) == entities(old(objects)@) && final(game)@ == old(game)@
        },
{
    assert(entities(objects@)[PLAYER as int] == objects[PLAYER as int]@);
    let took_turn = match result {
        PlayerAction::DidntTakeTurn => false,
        _ => true,
    };
    if objects[PLAYER].alive && took_turn {
        monsters_turn(objects, fov, game);
    }
}

/// Whether the player can go down to the next level within the machine's
/// integers.
pub fn descent_is_safe(objects: &Vec<GameObject>, game: &Game) -> (b: bool)
    ensures
        b == can_descend(entities(objects@), game@),
{
    if objects.len() <= PLAYER {
        return false;
    }
    assert(entities(objects@)[PLAYER as int] == objects[PLAYER as int]@);
    let max_hp = objects[PLAYER].wide_stat(game, Stat::MaxHp);
    if !is_small(max_hp) || game.dungeon_level == u32::MAX {
        return false;
    }
    let rest: i128 = if max_hp >= 0 {
        max_hp / 2
    } else {
        -((-max_hp) / 2)
    };
    match objects[PLAYER].fighter {
        Some(f) => is_small(f.hp as i128 + rest),
        None => true,
    }
}

/// Whether the command can be carried out.
pub fn command_is_safe(action: Action, objects: &Vec<GameObject>, game: &Game, fov: &FovMap) -> (b:
    bool)
    ensures
        b == can_handle(action, entities(objects@), game@, *fov),
{
    if objects.len() <= PLAYER {
        return false;
    }
    assert(entities(objects@)[PLAYER as int] == objects[PLAYER as int]@);
    if !objects[PLAYER].alive {
        return true;
    }
    match action {
        Action::Move(dx, dy) => move_is_safe(dx, dy, game, objects),
        Action::Use(id, target) => use_is_safe(id, objects, fov, game, target),
        Action::Drop(id) => id < game.inventory.len(),
        Action::Descend => !player_on_stairs(objects) || descent_is_safe(objects, game),
        _ => true,
    }
}

/// Carries out a command of the player, if it can be carried out, and says
/// whether it took a turn; where it cannot, nothing is done and nothing
/// comes back.
pub fn handle_keys_checked(
    action: Action,
    objects: &mut Vec<GameObject>,
    game: &mut Game,
    fov: &FovMap,
) -> (result: Option<PlayerAction>)
    ensures
        match result {
            Some(done) => can_handle(action, entities(old(objects)@), old(game)@, *fov) && handled(
                action,
                entities(old(objects)@),
                old(game)@,
                *fov,
                entities(final(objects)@),
                final(game)@,
                done,
            ),
            None => !can_handle(action, entities(old(objects)@), old(game)@, *fov) && entities(
                final(objects)@,
            ) == entities(old(objects)@) && final(game)@ == old(game)@,
        },
{
    if command_is_safe(action, objects, game, fov) {
        Some(handle_keys(action, objects, game, fov))
    } else {
        None
    }
}

/// A round that has come to some objects goes on with the turn of the next
/// one: what comes of that turn comes of the round with one turn more.
pub proof fn lemma_round_extend(
    objects: Seq<Entity>,
    session: Session,
    fov: FovMap,
    from: int,
    turns: nat,
    objects_end: Seq<Entity>,
    session_end: Session,
    dx: int,
    dy: int,
)
    requires
        round_from(objects, session, fov, from, turns, objects_end, session_end),
        is_stumble(dx, dy),
    ensures
        round_from(
            objects,
            session,
            fov,
            from,
            turns + 1,
            after_turn(objects_end, session_end, fov, from + turns, dx, dy),
            session_after_turn(objects_end, session_end, fov, from + turns),
        ),
    decreases turns,
{
    let last = after_turn(objects_end, session_end, fov, from + turns, dx, dy);
    let last_session = session_after_turn(objects_end, session_end, fov, from + turns);
    if turns == 0 {
        let next = after_turn(objects, session, fov, from, dx, dy);
        assert(round_from(
            next,
            session_after_turn(objects, session, fov, from),
            fov,
            from + 1,
            0,
            last,
            last_session,
        ));
    } else {
        let (d1, d2) = choose|d1: int, d2: int|
            is_stumble(d1, d2) && round_from(
                #[trigger] after_turn(objects, session, fov, from, d1, d2),
                session_after_turn(objects, session, fov, from),
                fov,
                from + 1,
                (turns - 1) as nat,
                objects_end,
                session_end,
            );
        let next = after_turn(objects, session, fov, from, d1, d2);
        lemma_round_extend(
            next,
            session_after_turn(objects, session, fov, from),
            fov,
            from + 1,
            (turns - 1) as nat,
            objects_end,
            session_end,
            dx,
            dy,
        );
        assert(round_from(
            next,
            session_after_turn(objects, session, fov, from),
            fov,
            from + 1,
            turns,
            last,
            last_session,
        ));
    }
}

} // verus!
