//! How monsters act: the basic behaviour, which chases and attacks the
//! player, and confusion, which stumbles about until it wears off.

use vstd::prelude::*;
use vstd::string::*;
use crate::chance::random_in_range;
use crate::color::{red, spec_red};
use crate::combat::{attack_lines, attacker_after, can_attack, target_after};
use crate::constants::{MAP_HEIGHT, MAP_WIDTH, PLAYER};
use crate::data_manipulation::mut_two;
use crate::dungeon::{blocked, grid_is_whole, grid_ok, is_blocked, on_grid};
use crate::entity::{Ai, Entity, Game, GameObject, Line, MessageLog, Session, entities};
use crate::fov::FovMap;
use crate::targeting::gap;

verus! {

/// The objects after the one at `id` has tried to step by `(dx, dy)`: it
/// stands on the new cell unless that cell is blocked.
pub open spec fn moved(
    objects: Seq<Entity>,
    map: Seq<Seq<crate::tile::Tile>>,
    id: int,
    dx: int,
    dy: int,
) -> Seq<Entity> {
    let x = objects[id].x + dx;
    let y = objects[id].y + dy;
    if blocked(map, objects, x, y) {
        objects
    } else {
        objects.update(id, Entity { x: x as i32, y: y as i32, ..objects[id] })
    }
}

/// Moves the object at `id` by `(dx, dy)`, unless the cell there is
/// blocked.
pub fn move_by(id: usize, dx: i32, dy: i32, game: &Game, objects: &mut Vec<GameObject>)
    requires
        id < old(objects).len(),
        grid_ok(game@.map),
        on_grid(old(objects)[id as int].x + dx, old(objects)[id as int].y + dy),
    ensures
        entities(final(objects)@) == moved(
            entities(old(objects)@),
            game@.map,
            id as int,
            dx as int,
            dy as int,
        ),
{
    assert(entities(objects@)[id as int] == objects[id as int]@);
    let (x, y) = objects[id].pos();
    if !is_blocked(x + dx, y + dy, &game.map, objects) {
        objects[id].set_pos(x + dx, y + dy);
        assert(entities(objects@) =~= moved(
            entities(old(objects)@),
            game@.map,
            id as int,
            dx as int,
            dy as int,
        ));
    }
}

/// One coordinate of the step towards a target that lies `d` cells away
/// along this axis and `other` cells away along the other: the share of
/// `d` in the straight-line distance, rounded to the nearest whole number.
/// That is a step of one cell where `d` is at least half the distance, and
/// none else.
pub open spec fn step_towards(d: int, other: int) -> int {
    if d != 0 && 3 * d * d >= other * other {
        if d > 0 {
            1
        } else {
            -1
        }
    } else {
        0
    }
}

/// One coordinate of the step towards a target.
pub fn step(d: i64, other: i64) -> (s: i32)
    requires
        -0x1_0000_0000 <= d <= 0x1_0000_0000,
        -0x1_0000_0000 <= other <= 0x1_0000_0000,
    ensures
        s == step_towards(d as int, other as int),
{
    let wide_d: i128 = d as i128;
    let wide_other: i128 = other as i128;
    assert(0 <= wide_d * wide_d <= 0x1_0000_0000_0000_0000) by (nonlinear_arith)
        requires
            -0x1_0000_0000 <= wide_d <= 0x1_0000_0000,
    ;
    assert(0 <= wide_other * wide_other <= 0x1_0000_0000_0000_0000) by (nonlinear_arith)
        requires
            -0x1_0000_0000 <= wide_other <= 0x1_0000_0000,
    ;
    assert(3 * wide_d * wide_d == 3 * (wide_d * wide_d)) by (nonlinear_arith);
    if d != 0 && 3 * (wide_d * wide_d) >= wide_other * wide_other {
        if d > 0 {
            1
        } else {
            -1
        }
    } else {
        0
    }
}

/// Moves the object at `id` one step towards `(target_x, target_y)`,
/// unless the cell there is blocked.
pub fn move_towards(
    id: usize,
    target_x: i32,
    target_y: i32,
    game: &Game,
    objects: &mut Vec<GameObject>,
)
    requires
        id < old(objects).len(),
        grid_ok(game@.map),
        on_grid(
            old(objects)[id as int].x + step_towards(
                target_x - old(objects)[id as int].x,
                target_y - old(objects)[id as int].y,
            ),
            old(objects)[id as int].y + step_towards(
                target_y - old(objects)[id as int].y,
                target_x - old(objects)[id as int].x,
            ),
        ),
    ensures
        entities(final(objects)@) == moved(
            entities(old(objects)@),
            game@.map,
            id as int,
            step_towards(
                target_x - old(objects)[id as int].x,
                target_y - old(objects)[id as int].y,
            ),
            step_towards(
                target_y - old(objects)[id as int].y,
                target_x - old(objects)[id as int].x,
            ),
        ),
{
    let dx: i64 = target_x as i64 - objects[id].x as i64;
    let dy: i64 = target_y as i64 - objects[id].y as i64;
    let step_x = step(dx, dy);
    let step_y = step(dy, dx);
    move_by(id, step_x, step_y, game, objects);
}

/// What a monster with the basic behaviour does on its turn.
#[derive(Clone, Copy, Debug, PartialEq, Eq, Structural)]
pub enum Deed {
    /// Nothing: it does not see the player, or the player is dead.
    Idle,
    /// It steps towards the player.
    Approach,
    /// It attacks the player.
    Strike,
}

/// What the monster at `id` does: seen by the player, it approaches from
/// two cells away or more, and attacks from nearer while the player has hit
/// points left.
pub open spec fn deed(objects: Seq<Entity>, fov: FovMap, id: int) -> Deed {
    if !fov.sees(objects[id].x as int, objects[id].y as int) {
        Deed::Idle
    } else if gap(objects, id) >= 4 {
        Deed::Approach
    } else if objects[PLAYER as int].fighter is Some && objects[PLAYER as int].fighter->0.hp > 0 {
        Deed::Strike
    } else {
        Deed::Idle
    }
}

/// The step of the monster at `id` towards the player, along x.
pub open spec fn chase_x(objects: Seq<Entity>, id: int) -> int {
    step_towards(
        objects[PLAYER as int].x - objects[id].x,
        objects[PLAYER as int].y - objects[id].y,
    )
}

/// The step of the monster at `id` towards the player, along y.
pub open spec fn chase_y(objects: Seq<Entity>, id: int) -> int {
    step_towards(
        objects[PLAYER as int].y - objects[id].y,
        objects[PLAYER as int].x - objects[id].x,
    )
}

/// Whether the monster at `id` can do its basic turn: its step stays on
/// the grid, and its attack is on another than itself and within the
/// machine's integers.
pub open spec fn can_act(objects: Seq<Entity>, session: Session, fov: FovMap, id: int) -> bool {
    &&& 0 <= id < objects.len()
    &&& objects.len() > PLAYER
    &&& grid_ok(session.map)
    &&& match deed(objects, fov, id) {
        Deed::Idle => true,
        Deed::Approach => on_grid(
            objects[id].x + chase_x(objects, id),
            objects[id].y + chase_y(objects, id),
        ),
        Deed::Strike => id != PLAYER && can_attack(
            objects[id],
            objects[PLAYER as int],
            session.inventory,
        ),
    }
}

/// The objects after the basic turn of the monster at `id`.
pub open spec fn after_basic(objects: Seq<Entity>, session: Session, fov: FovMap, id: int) -> Seq<
    Entity,
> {
    match deed(objects, fov, id) {
        Deed::Idle => objects,
        Deed::Approach => moved(
            objects,
            session.map,
            id,
            chase_x(objects, id),
            chase_y(objects, id),
        ),
        Deed::Strike => objects.update(
            id,
            attacker_after(objects[id], objects[PLAYER as int], session.inventory),
        ).update(
            PLAYER as int,
            target_after(objects[id], objects[PLAYER as int], session.inventory),
        ),
    }
}

/// The lines that the basic turn of the monster at `id` adds to the log.
pub open spec fn basic_lines(objects: Seq<Entity>, session: Session, fov: FovMap, id: int) -> Seq<
    Line,
> {
    match deed(objects, fov, id) {
        Deed::Strike => attack_lines(objects[id], objects[PLAYER as int], session.inventory),
        _ => seq![],
    }
}

/// The turn of a monster with the basic behaviour, which it keeps.
pub fn ai_basic(
    monster_id: usize,
    objects: &mut Vec<GameObject>,
    fov: &FovMap,
    game: &mut Game,
) -> (ai: Ai)
    requires
        can_act(entities(old(objects)@), old(game)@, *fov, monster_id as int),
    ensures
        ai == Ai::Basic,
        entities(final(objects)@) == after_basic(
            entities(old(objects)@),
            old(game)@,
            *fov,
            monster_id as int,
        ),
        final(game)@ == (Session {
            log: old(game)@.log + basic_lines(
                entities(old(objects)@),
                old(game)@,
                *fov,
                monster_id as int,
            ),
            ..old(game)@
        }),
{
    let ghost before = entities(objects@);
    assert(before[monster_id as int] == objects[monster_id as int]@);
    assert(before[PLAYER as int] == objects[PLAYER as int]@);
    let (monster_x, monster_y) = objects[monster_id].pos();
    if fov.is_in_fov(monster_x, monster_y) {
        if objects[PLAYER].distance_squared_to(&objects[monster_id]) >= 4 {
            let (player_x, player_y) = objects[PLAYER].pos();
            move_towards(monster_id, player_x, player_y, game, objects);
            assert(game@.log =~= old(game)@.log + basic_lines(
                before,
                old(game)@,
                *fov,
                monster_id as int,
            ));
            return Ai::Basic;
        } else if match objects[PLAYER].fighter {
            Some(f) => f.hp > 0,
            None => false,
        } {
            let (monster, player) = mut_two(monster_id, PLAYER, objects);
            monster.attack(player, game);
            assert(entities(objects@) =~= after_basic(
                before,
                old(game)@,
                *fov,
                monster_id as int,
            ));
            return Ai::Basic;
        }
    }
    assert(game@.log =~= old(game)@.log + basic_lines(
        before,
        old(game)@,
        *fov,
        monster_id as int,
    ));
    Ai::Basic
}

/// The behaviour after one turn of confusion with `num_turns` turns left:
/// confusion with one turn less while there are turns left, then the
/// behaviour that the confusion had replaced.
pub open spec fn next_confused(previous_ai: Ai, num_turns: i32) -> Ai {
    if num_turns >= 0 {
        Ai::Confused { previous_ai: Box::new(previous_ai), num_turns: (num_turns - 1) as i32 }
    } else {
        previous_ai
    }
}

/// The objects after a turn of confusion of the one at `id`, which
/// stumbles by `(dx, dy)` while there are turns left.
pub open spec fn after_confused(
    objects: Seq<Entity>,
    session: Session,
    id: int,
    num_turns: i32,
    dx: int,
    dy: int,
) -> Seq<Entity> {
    if num_turns >= 0 {
        moved(objects, session.map, id, dx, dy)
    } else {
        objects
    }
}

/// The lines that a turn of confusion adds to the log: that it is over,
/// once no turns are left.
pub open spec fn confused_lines(objects: Seq<Entity>, id: int, num_turns: i32) -> Seq<Line> {
    if num_turns >= 0 {
        seq![]
    } else {
        seq![("The "@ + objects[id].name + " is no longer confused!"@, spec_red())]
    }
}

/// Whether the object at `id` can take a turn of confusion with the step
/// `(dx, dy)`: the step stays on the grid.
pub open spec fn can_stumble(
    objects: Seq<Entity>,
    session: Session,
    id: int,
    num_turns: i32,
    dx: int,
    dy: int,
) -> bool {
    &&& 0 <= id < objects.len()
    &&& num_turns >= 0 ==> grid_ok(session.map) && on_grid(
        objects[id].x + dx,
        objects[id].y + dy,
    )
}

/// The turn of a confused monster, with the step that it stumbles: while
/// turns are left it tries the step and has one turn less; after that it
/// does not move, the end of the confusion is logged, and it has its
/// earlier behaviour back.
pub fn ai_confused_step(
    monster_id: usize,
    objects: &mut Vec<GameObject>,
    game: &mut Game,
    previous_ai: Box<Ai>,
    num_turns: i32,
    dx: i32,
    dy: i32,
) -> (ai: Ai)
    requires
        can_stumble(
            entities(old(objects)@),
            old(game)@,
            monster_id as int,
            num_turns,
            dx as int,
            dy as int,
        ),
    ensures
        ai == next_confused(*previous_ai, num_turns),
        entities(final(objects)@) == after_confused(
            entities(old(objects)@),
            old(game)@,
            monster_id as int,
            num_turns,
            dx as int,
            dy as int,
        ),
        final(game)@ == (Session {
            log: old(game)@.log + confused_lines(
                entities(old(objects)@),
                monster_id as int,
                num_turns,
            ),
            ..old(game)@
        }),
{
    assert(entities(objects@)[monster_id as int] == objects[monster_id as int]@);
    if num_turns >= 0 {
        move_by(monster_id, dx, dy, game, objects);
        assert(game@.log =~= old(game)@.log + confused_lines(
            entities(old(objects)@),
            monster_id as int,
            num_turns,
        ));
        Ai::Confused { previous_ai, num_turns: num_turns - 1 }
    } else {
        let mut text = String::from_str("The ");
        text.append(objects[monster_id].name.as_str());
        text.append(" is no longer confused!");
        game.log.add(text.as_str(), red());
        assert(game@.log =~= old(game)@.log + confused_lines(
            entities(old(objects)@),
            monster_id as int,
            num_turns,
        ));
        *previous_ai
    }
}

/// Whether `dx` and `dy` are each a step of at most one cell.
pub open spec fn is_stumble(dx: int, dy: int) -> bool {
    -1 <= dx <= 1 && -1 <= dy <= 1
}

/// Whether the object and the results are those of a turn of confusion with
/// the step `(dx, dy)`.
pub open spec fn stumbled(
    objects: Seq<Entity>,
    session: Session,
    id: int,
    previous_ai: Ai,
    num_turns: i32,
    dx: int,
    dy: int,
    objects_after: Seq<Entity>,
    session_after: Session,
    ai: Ai,
) -> bool {
    &&& ai == next_confused(previous_ai, num_turns)
    &&& objects_after == after_confused(objects, session, id, num_turns, dx, dy)
    &&& session_after == (Session {
        log: session.log + confused_lines(objects, id, num_turns),
        ..session
    })
}

/// The turn of a confused monster: see [`ai_confused_step`]; the step is
/// drawn at random among the nine of at most one cell.
pub fn ai_confused(
    monster_id: usize,
    objects: &mut Vec<GameObject>,
    game: &mut Game,
    previous_ai: Box<Ai>,
    num_turns: i32,
) -> (ai: Ai)
    requires
        forall|dx: int, dy: int|
            is_stumble(dx, dy) ==> #[trigger] can_stumble(
                entities(old(objects)@),
                old(game)@,
                monster_id as int,
                num_turns,
                dx,
                dy,
            ),
    ensures
        exists|dx: int, dy: int|
            is_stumble(dx, dy) && #[trigger] stumbled(
                entities(old(objects)@),
                old(game)@,
                monster_id as int,
                *previous_ai,
                num_turns,
                dx,
                dy,
                entities(final(objects)@),
                final(game)@,
                ai,
            ),
{
    let dx = random_in_range(-1, 2);
    let dy = random_in_range(-1, 2);
    assert(is_stumble(dx as int, dy as int));
    assert(can_stumble(
        entities(objects@),
        game@,
        monster_id as int,
        num_turns,
        dx as int,
        dy as int,
    ));
    let ai = ai_confused_step(monster_id, objects, game, previous_ai, num_turns, dx, dy);
    assert(stumbled(
        entities(old(objects)@),
        old(game)@,
        monster_id as int,
        *previous_ai,
        num_turns,
        dx as int,
        dy as int,
        entities(objects@),
        game@,
        ai,
    ));
    ai
}

/// The entity with the behaviour `ai`, or with none.
pub open spec fn with_ai(e: Entity, ai: Option<Ai>) -> Entity {
    Entity { ai, ..e }
}

/// The objects while the one at `id` takes its turn: its behaviour is
/// taken out of it for that time.
pub open spec fn acting(objects: Seq<Entity>, id: int) -> Seq<Entity> {
    objects.update(id, with_ai(objects[id], None))
}

/// Whether the object at `id` can take its turn, a confused one with the
/// step `(dx, dy)`.
pub open spec fn can_take_turn(
    objects: Seq<Entity>,
    session: Session,
    fov: FovMap,
    id: int,
    dx: int,
    dy: int,
) -> bool {
    &&& 0 <= id < objects.len()
    &&& match objects[id].ai {
        None => true,
        Some(Ai::Basic) => can_act(acting(objects, id), session, fov, id),
        Some(Ai::Confused { previous_ai, num_turns }) => can_stumble(
            acting(objects, id),
            session,
            id,
            num_turns,
            dx,
            dy,
        ),
    }
}

/// The objects after the turn of the one at `id`, a confused one stumbling
/// by `(dx, dy)`. An object without a behaviour does nothing.
pub open spec fn after_turn(
    objects: Seq<Entity>,
    session: Session,
    fov: FovMap,
    id: int,
    dx: int,
    dy: int,
) -> Seq<Entity> {
    match objects[id].ai {
        None => objects,
        Some(Ai::Basic) => {
            let acted = after_basic(acting(objects, id), session, fov, id);
            acted.update(id, with_ai(acted[id], Some(Ai::Basic)))
        },
        Some(Ai::Confused { previous_ai, num_turns }) => {
            let acted = after_confused(acting(objects, id), session, id, num_turns, dx, dy);
            acted.update(id, with_ai(acted[id], Some(next_confused(*previous_ai, num_turns))))
        },
    }
}

/// The lines that the turn of the object at `id` adds to the log.
pub open spec fn turn_lines(objects: Seq<Entity>, session: Session, fov: FovMap, id: int) -> Seq<
    Line,
> {
    match objects[id].ai {
        None => seq![],
        Some(Ai::Basic) => basic_lines(acting(objects, id), session, fov, id),
        Some(Ai::Confused { previous_ai, num_turns }) => confused_lines(
            acting(objects, id),
            id,
            num_turns,
        ),
    }
}

/// The turn of the object at `id`, with the step that it stumbles if it is
/// confused: it acts by its behaviour and has the behaviour that follows.
pub fn take_turn_with(
    monster_id: usize,
    objects: &mut Vec<GameObject>,
    fov: &FovMap,
    game: &mut Game,
    dx: i32,
    dy: i32,
)
    requires
        can_take_turn(
            entities(old(objects)@),
            old(game)@,
            *fov,
            monster_id as int,
            dx as int,
            dy as int,
        ),
    ensures
        entities(final(objects)@) == after_turn(
            entities(old(objects)@),
            old(game)@,
            *fov,
            monster_id as int,
            dx as int,
            dy as int,
        ),
        final(game)@ == (Session {
            log: old(game)@.log + turn_lines(
                entities(old(objects)@),
                old(game)@,
                *fov,
                monster_id as int,
            ),
            ..old(game)@
        }),
{
    let ghost before = entities(objects@);
    assert(before[monster_id as int] == objects[monster_id as int]@);
    if let Some(ai) = objects[monster_id].ai.take() {
        assert(entities(objects@) =~= acting(before, monster_id as int));
        let new_ai = match ai {
            Ai::Basic => ai_basic(monster_id, objects, fov, game),
            Ai::Confused { previous_ai, num_turns } => ai_confused_step(
                monster_id,
                objects,
                game,
                previous_ai,
                num_turns,
                dx,
                dy,
            ),
        };
        let ghost acted = entities(objects@);
        assert(acted.len() == before.len());
        assert(objects.len() == acted.len());
        assert(acted[monster_id as int] == objects[monster_id as int]@);
        objects[monster_id].ai = Some(new_ai);
        assert(entities(objects@) =~= acted.update(
            monster_id as int,
            with_ai(acted[monster_id as int], Some(new_ai)),
        ));
    } else {
        assert(game@.log =~= old(game)@.log + turn_lines(
            before,
            old(game)@,
            *fov,
            monster_id as int,
        ));
    }
}

/// Whether the objects and the session after are those of the turn of the
/// object at `id` with the step `(dx, dy)`.
pub open spec fn turned(
    objects: Seq<Entity>,
    session: Session,
    fov: FovMap,
    id: int,
    dx: int,
    dy: int,
    objects_after: Seq<Entity>,
    session_after: Session,
) -> bool {
    &&& objects_after == after_turn(objects, session, fov, id, dx, dy)
    &&& session_after == (Session {
        log: session.log + turn_lines(objects, session, fov, id),
        ..session
    })
}

/// The turn of the object at `id`: see [`take_turn_with`]; the step of a
/// confused one is drawn at random among the nine of at most one cell.
pub fn take_turn(monster_id: usize, objects: &mut Vec<GameObject>, fov: &FovMap, game: &mut Game)
    requires
        forall|dx: int, dy: int|
            is_stumble(dx, dy) ==> #[trigger] can_take_turn(
                entities(old(objects)@),
                old(game)@,
                *fov,
                monster_id as int,
                dx,
                dy,
            ),
    ensures
        exists|dx: int, dy: int|
            is_stumble(dx, dy) && #[trigger] turned(
                entities(old(objects)@),
                old(game)@,
                *fov,
                monster_id as int,
                dx,
                dy,
                entities(final(objects)@),
                final(game)@,
            ),
{
    let dx = random_in_range(-1, 2);
    let dy = random_in_range(-1, 2);
    assert(is_stumble(dx as int, dy as int));
    assert(can_take_turn(
        entities(objects@),
        game@,
        *fov,
        monster_id as int,
        dx as int,
        dy as int,
    ));
    take_turn_with(monster_id, objects, fov, game, dx, dy);
    assert(turned(
        entities(old(objects)@),
        old(game)@,
        *fov,
        monster_id as int,
        dx as int,
        dy as int,
        entities(objects@),
        game@,
    ));
}

/// A confused monster with no turn left stumbles once more, and on the turn
/// after that it stays where it is and has its earlier behaviour back:
/// after the first turn it is confused with less than no turn left and
/// stands where the step took it; after the second it stands on the same
/// cell, behaves as before the confusion, and the end of the confusion is
/// the one line logged.
pub proof fn lemma_confusion_wears_off(
    objects: Seq<Entity>,
    session: Session,
    fov: FovMap,
    id: int,
    previous_ai: Ai,
    dx: int,
    dy: int,
    dx2: int,
    dy2: int,
)
    requires
        0 <= id < objects.len(),
        objects[id].ai == Some(Ai::Confused { previous_ai: Box::new(previous_ai), num_turns: 0 }),
    ensures
        ({
            let first = after_turn(objects, session, fov, id, dx, dy);
            let second = after_turn(first, session, fov, id, dx2, dy2);
            &&& first == moved(acting(objects, id), session.map, id, dx, dy).update(
                id,
                with_ai(
                    moved(acting(objects, id), session.map, id, dx, dy)[id],
                    Some(Ai::Confused { previous_ai: Box::new(previous_ai), num_turns: -1i32 }),
                ),
            )
            &&& turn_lines(objects, session, fov, id) == Seq::<Line>::empty()
            &&& second == first.update(id, with_ai(first[id], Some(previous_ai)))
            &&& turn_lines(first, session, fov, id) == seq![
                ("The "@ + objects[id].name + " is no longer confused!"@, spec_red()),
            ]
        }),
{
    let idle = acting(objects, id);
    let stepped = moved(idle, session.map, id, dx, dy);
    let first = after_turn(objects, session, fov, id, dx, dy);
    assert(stepped[id].name == objects[id].name);
    assert(first[id].ai == Some(
        Ai::Confused { previous_ai: Box::new(previous_ai), num_turns: -1i32 },
    ));
    let second = after_turn(first, session, fov, id, dx2, dy2);
    assert(acting(first, id).update(id, with_ai(acting(first, id)[id], Some(previous_ai)))
        =~= first.update(id, with_ai(first[id], Some(previous_ai))));
}

/// What an object does on its turn does not depend on the behaviour that
/// is taken out of it for that time.
pub proof fn lemma_acting_is_the_same(objects: Seq<Entity>, session: Session, fov: FovMap, id: int)
    requires
        0 <= id < objects.len(),
        objects.len() > PLAYER,
    ensures
        deed(acting(objects, id), fov, id) == deed(objects, fov, id),
        can_act(acting(objects, id), session, fov, id) == can_act(objects, session, fov, id),
        forall|num_turns: i32, dx: int, dy: int|
            #[trigger] can_stumble(acting(objects, id), session, id, num_turns, dx, dy)
                == can_stumble(objects, session, id, num_turns, dx, dy),
{
}

/// Whether the monster at `monster_id` can do its basic turn.
pub fn basic_is_safe(monster_id: usize, objects: &Vec<GameObject>, fov: &FovMap, game: &Game) -> (b:
    bool)
    requires
        monster_id < objects.len(),
    ensures
        b == can_act(entities(objects@), game@, *fov, monster_id as int),
{
    let ghost all = entities(objects@);
    assert(all[monster_id as int] == objects[monster_id as int]@);
    assert(all[PLAYER as int] == objects[PLAYER as int]@);
    if !grid_is_whole(&game.map) {
        return false;
    }
    let monster = &objects[monster_id];
    let player = &objects[PLAYER];
    if !fov.is_in_fov(monster.x, monster.y) {
        return true;
    }
    if player.distance_squared_to(monster) >= 4 {
        let dx: i64 = player.x as i64 - monster.x as i64;
        let dy: i64 = player.y as i64 - monster.y as i64;
        let x: i64 = monster.x as i64 + step(dx, dy) as i64;
        let y: i64 = monster.y as i64 + step(dy, dx) as i64;
        0 <= x && x < MAP_WIDTH as i64 && 0 <= y && y < MAP_HEIGHT as i64
    } else if match player.fighter {
        Some(f) => f.hp > 0,
        None => false,
    } {
        monster_id != PLAYER && monster.can_attack(player, game)
    } else {
        true
    }
}

/// Whether the object at `monster_id` can take its turn, a confused one
/// with the step `(dx, dy)`.
pub fn turn_is_safe(
    monster_id: usize,
    objects: &Vec<GameObject>,
    fov: &FovMap,
    game: &Game,
    dx: i32,
    dy: i32,
) -> (b: bool)
    ensures
        b == can_take_turn(
            entities(objects@),
            game@,
            *fov,
            monster_id as int,
            dx as int,
            dy as int,
        ),
{
    if monster_id >= objects.len() {
        return false;
    }
    let ghost all = entities(objects@);
    assert(all[monster_id as int] == objects[monster_id as int]@);
    proof {
        lemma_acting_is_the_same(all, game@, *fov, monster_id as int);
    }
    match &objects[monster_id].ai {
        None => true,
        Some(Ai::Basic) => basic_is_safe(monster_id, objects, fov, game),
        Some(Ai::Confused { previous_ai, num_turns }) => {
            if *num_turns < 0 {
                true
            } else {
                let x: i64 = objects[monster_id].x as i64 + dx as i64;
                let y: i64 = objects[monster_id].y as i64 + dy as i64;
                grid_is_whole(&game.map) && 0 <= x && x < MAP_WIDTH as i64 && 0 <= y && y
                    < MAP_HEIGHT as i64
            }
        },
    }
}

} // verus!
