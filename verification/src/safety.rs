//! The monsters' round with its checks made at run time: turn by turn, as
//! far as the round can be held, or before the round, with the proof that
//! objects that are ready for it get it done.

use vstd::prelude::*;
use vstd::string::*;
use crate::ai::{
    acting, after_turn, can_act, can_stumble, can_take_turn, is_stumble, step_towards,
    take_turn_with, turn_is_safe,
};
use crate::chance::random_in_range;
use crate::combat::{Stat, base, effective, is_player, target_after};
use crate::constants::{MAP_HEIGHT, MAP_WIDTH, PLAYER};
use crate::dungeon::{grid_is_whole, grid_ok};
use crate::entity::{Ai, Entity, Game, GameObject, Session, entities};
use crate::fov::FovMap;
use crate::player::xp_of;
use crate::player::PlayerAction;
use crate::session::{
    can_round, lemma_after_turn_len, lemma_round_extend, monsters_act, round_from,
    session_after_turn,
};

verus! {

/// Whether a statistic is small enough that the sum and the difference of
/// two such fit the machine's integers.
pub open spec fn modest(n: int) -> bool {
    -0x4000_0000 < n < 0x4000_0000
}

/// Whether the entity stands off the edge of the grid, so that every step
/// of one cell stays on the grid.
pub open spec fn roomy(e: Entity) -> bool {
    0 < e.x < MAP_WIDTH - 1 && 0 < e.y < MAP_HEIGHT - 1
}

/// Whether an entity that acts is ready for its turn: it stands off the
/// edge, it is not the player, and it fights with modest statistics.
pub open spec fn ready_monster(e: Entity) -> bool {
    e.ai is Some ==> {
        &&& roomy(e)
        &&& !is_player(e)
        &&& e.fighter is Some
        &&& modest(e.fighter->0.base_power as int)
        &&& modest(e.fighter->0.xp as int)
    }
}

/// Whether the player is ready for the monsters' round: it does not act
/// itself, and its defense, with and without equipment, and its experience
/// are modest.
pub open spec fn ready_player(p: Entity, inventory: Seq<Entity>) -> bool {
    &&& p.ai is None
    &&& modest(base(p, Stat::Defense))
    &&& modest(effective(p, inventory, Stat::Defense))
    &&& modest(xp_of(p))
}

/// Whether the objects from `from` on are ready for their turns.
pub open spec fn steady(objects: Seq<Entity>, session: Session, from: int) -> bool {
    &&& objects.len() > PLAYER
    &&& grid_ok(session.map)
    &&& ready_player(objects[PLAYER as int], session.inventory)
    &&& forall|j: int| from <= j < objects.len() && 1 <= j ==> ready_monster(#[trigger] objects[j])
}

proof fn lemma_step_is_short(d: int, other: int)
    ensures
        -1 <= step_towards(d, other) <= 1,
{
}

proof fn lemma_corpse_is_not_player(name: Seq<char>)
    ensures
        "Corpse of player"@ != "Player"@,
        "Remains of "@ + name != "Player"@,
{
    reveal_strlit("Corpse of player");
    reveal_strlit("Player");
    reveal_strlit("Remains of ");
    assert("Corpse of player"@.len() == 16);
    assert("Player"@.len() == 6);
    assert(("Remains of "@ + name).len() >= 11);
}

proof fn lemma_player_stays_ready(monster: Entity, player: Entity, inventory: Seq<Entity>)
    requires
        ready_player(player, inventory),
    ensures
        ready_player(target_after(monster, player, inventory), inventory),
{
    lemma_corpse_is_not_player(player.name);
}

/// The turn of an object that is ready can be taken, whatever step it
/// stumbles, and leaves the objects after it ready.
pub proof fn lemma_steady_turn(
    objects: Seq<Entity>,
    session: Session,
    fov: FovMap,
    from: int,
    dx: int,
    dy: int,
)
    requires
        steady(objects, session, from),
        0 <= from < objects.len(),
        is_stumble(dx, dy),
    ensures
        can_take_turn(objects, session, fov, from, dx, dy),
        steady(
            after_turn(objects, session, fov, from, dx, dy),
            session_after_turn(objects, session, fov, from),
            from + 1,
        ),
{
    let after = after_turn(objects, session, fov, from, dx, dy);
    let later = session_after_turn(objects, session, fov, from);
    lemma_after_turn_len(objects, session, fov, from, dx, dy);
    if from == 0 || objects[from].ai is None {
        assert(after == objects);
    } else {
        let idle = acting(objects, from);
        assert(ready_monster(objects[from]));
        assert(idle[PLAYER as int] == objects[PLAYER as int]);
        match objects[from].ai->0 {
            Ai::Basic => {
                lemma_step_is_short(
                    idle[PLAYER as int].x - idle[from].x,
                    idle[PLAYER as int].y - idle[from].y,
                );
                lemma_step_is_short(
                    idle[PLAYER as int].y - idle[from].y,
                    idle[PLAYER as int].x - idle[from].x,
                );
                lemma_player_stays_ready(idle[from], idle[PLAYER as int], session.inventory);
                assert(can_act(idle, session, fov, from));
                assert(after[PLAYER as int] == objects[PLAYER as int] || after[PLAYER as int]
                    == target_after(idle[from], idle[PLAYER as int], session.inventory));
                assert forall|j: int| from + 1 <= j < after.len() && 1 <= j implies ready_monster(
                    #[trigger] after[j],
                ) by {
                    assert(after[j] == objects[j]);
                    assert(ready_monster(objects[j]));
                }
            },
            Ai::Confused { previous_ai, num_turns } => {
                assert(can_stumble(idle, session, from, num_turns, dx, dy));
                assert(after[PLAYER as int] == objects[PLAYER as int]);
                assert forall|j: int| from + 1 <= j < after.len() && 1 <= j implies ready_monster(
                    #[trigger] after[j],
                ) by {
                    assert(after[j] == objects[j]);
                    assert(ready_monster(objects[j]));
                }
            },
        }
    }
}

/// Objects that are ready can take their turns one after the other,
/// whatever steps the confused ones stumble.
pub proof fn lemma_steady_round(
    objects: Seq<Entity>,
    session: Session,
    fov: FovMap,
    from: int,
    remaining: nat,
)
    requires
        steady(objects, session, from),
        0 <= from,
        from + remaining == objects.len(),
    ensures
        can_round(objects, session, fov, from, remaining),
    decreases remaining,
{
    if remaining > 0 {
        assert forall|dx: int, dy: int| is_stumble(dx, dy) implies #[trigger] can_take_turn(
            objects,
            session,
            fov,
            from,
            dx,
            dy,
        ) && can_round(
            after_turn(objects, session, fov, from, dx, dy),
            session_after_turn(objects, session, fov, from),
            fov,
            from + 1,
            (remaining - 1) as nat,
        ) by {
            lemma_steady_turn(objects, session, fov, from, dx, dy);
            lemma_after_turn_len(objects, session, fov, from, dx, dy);
            lemma_steady_round(
                after_turn(objects, session, fov, from, dx, dy),
                session_after_turn(objects, session, fov, from),
                fov,
                from + 1,
                (remaining - 1) as nat,
            );
        }
    }
}

fn is_modest(n: i128) -> (b: bool)
    ensures
        b == modest(n as int),
{
    -0x4000_0000 < n && n < 0x4000_0000
}

/// Whether the objects are ready for the monsters' round.
pub fn round_is_safe(objects: &Vec<GameObject>, game: &Game) -> (b: bool)
    ensures
        b == steady(entities(objects@), game@, 0),
{
    if objects.len() <= PLAYER || !grid_is_whole(&game.map) {
        return false;
    }
    let ghost all = entities(objects@);
    assert(all[PLAYER as int] == objects[PLAYER as int]@);
    let player = &objects[PLAYER];
    let base_defense: i32 = match player.fighter {
        Some(f) => f.base_defense,
        None => 0,
    };
    let xp: i32 = match player.fighter {
        Some(f) => f.xp,
        None => 0,
    };
    if player.ai.is_some() || !is_modest(base_defense as i128) || !is_modest(
        player.wide_stat(game, Stat::Defense),
    ) || !is_modest(xp as i128) {
        return false;
    }
    let player_name = String::from_str("Player");
    let mut id: usize = 1;
    while id < objects.len()
        invariant
            1 <= id <= objects.len(),
            all == entities(objects@),
            player_name@ == "Player"@,
            forall|j: int| 1 <= j < id ==> ready_monster(#[trigger] all[j]),
        decreases objects.len() - id,
    {
        assert(all[id as int] == objects[id as int]@);
        let o = &objects[id];
        if o.ai.is_some() {
            let off_the_edge = 0 < o.x && o.x < MAP_WIDTH - 1 && 0 < o.y && o.y < MAP_HEIGHT - 1;
            let ready = off_the_edge && !(o.name == player_name) && match o.fighter {
                Some(f) => is_modest(f.base_power as i128) && is_modest(f.xp as i128),
                None => false,
            };
            if !ready {
                assert(!ready_monster(all[id as int]));
                return false;
            }
        }
        id += 1;
    }
    true
}

/// Whether `objects_end` and `session_end` are where the monsters' round
/// has come to after the turns of the first `turns` objects: at its end, if
/// it is done; else before the turn of an object that cannot take it with
/// the step that was drawn for it.
pub open spec fn round_stopped(
    objects: Seq<Entity>,
    session: Session,
    fov: FovMap,
    turns: nat,
    objects_end: Seq<Entity>,
    session_end: Session,
    done: bool,
) -> bool {
    &&& turns <= objects.len()
    &&& round_from(objects, session, fov, 0, turns, objects_end, session_end)
    &&& if done {
        turns == objects.len()
    } else {
        exists|dx: int, dy: int|
            is_stumble(dx, dy) && !#[trigger] can_take_turn(
                objects_end,
                session_end,
                fov,
                turns as int,
                dx,
                dy,
            )
    }
}

/// The monsters' round, held as far as it can be: every object that has a
/// behaviour takes its turn, in the order of the objects, until one cannot
/// take it, because its step would leave the grid or its attack the
/// machine's integers. The round stops before that turn and `false` comes
/// back; `true` comes back where the round is done. Objects that are ready
/// for the round always get it done.
pub fn monsters_turn_checked(objects: &mut Vec<GameObject>, fov: &FovMap, game: &mut Game) -> (done:
    bool)
    requires
        old(objects).len() > PLAYER,
    ensures
        exists|turns: nat| #[trigger]
            round_stopped(
                entities(old(objects)@),
                old(game)@,
                *fov,
                turns,
                entities(final(objects)@),
                final(game)@,
                done,
            ),
        steady(entities(old(objects)@), old(game)@, 0) ==> done,
{
    let ghost objects0 = entities(objects@);
    let ghost session0 = game@;
    let ghost ready = steady(objects0, session0, 0);
    let count = objects.len();
    proof {
        if ready {
            lemma_steady_round(objects0, session0, *fov, 0, count as nat);
        }
    }
    let mut id: usize = 0;
    while id < count
        invariant
            id <= count,
            count > PLAYER,
            objects.len() == count,
            objects0.len() == count,
            objects0 == entities(old(objects)@),
            session0 == old(game)@,
            ready == steady(objects0, session0, 0),
            round_from(objects0, session0, *fov, 0, id as nat, entities(objects@), game@),
            ready ==> can_round(entities(objects@), game@, *fov, id as int, (count - id) as nat),
        decreases count - id,
    {
        let ghost before = entities(objects@);
        let ghost session_before = game@;
        assert(before[id as int] == objects[id as int]@);
        if objects[id].ai.is_some() {
            let dx = random_in_range(-1, 2);
            let dy = random_in_range(-1, 2);
            assert(is_stumble(dx as int, dy as int));
            if !turn_is_safe(id, objects, fov, game, dx, dy) {
                assert(round_stopped(
                    objects0,
                    session0,
                    *fov,
                    id as nat,
                    entities(objects@),
                    game@,
                    false,
                ));
                assert(!ready) by {
                    if ready {
                        assert(can_take_turn(
                            before,
                            session_before,
                            *fov,
                            id as int,
                            dx as int,
                            dy as int,
                        ));
                    }
                }
                return false;
            }
            take_turn_with(id, objects, fov, game, dx, dy);
            proof {
                lemma_round_extend(
                    objects0,
                    session0,
                    *fov,
                    0,
                    id as nat,
                    before,
                    session_before,
                    dx as int,
                    dy as int,
                );
                lemma_after_turn_len(before, session_before, *fov, id as int, dx as int, dy as int);
                if ready {
                    assert(can_take_turn(
                        before,
                        session_before,
                        *fov,
                        id as int,
                        dx as int,
                        dy as int,
                    ));
                }
            }
        } else {
            proof {
                assert(is_stumble(0, 0));
                lemma_round_extend(
                    objects0,
                    session0,
                    *fov,
                    0,
                    id as nat,
                    before,
                    session_before,
                    0,
                    0,
                );
                assert(after_turn(before, session_before, *fov, id as int, 0, 0) == before);
                assert(session_after_turn(before, session_before, *fov, id as int).log
                    =~= session_before.log);
                if ready {
                    assert(can_take_turn(before, session_before, *fov, id as int, 0, 0));
                }
            }
        }
        id += 1;
    }
    assert(round_stopped(
        objects0,
        session0,
        *fov,
        count as nat,
        entities(objects@),
        game@,
        true,
    ));
    true
}

/// What follows a command of the player that did not end the game: the
/// monsters' round, if the player is alive and the command took a turn.
/// The round is held as far as it can be, see [`monsters_turn_checked`];
/// `false` comes back where it stopped before its end, and where there is
/// no player.
pub fn end_turn_checked(
    result: PlayerAction,
    objects: &mut Vec<GameObject>,
    fov: &FovMap,
    game: &mut Game,
) -> (done: bool)
    ensures
        if old(objects).len() > PLAYER && monsters_act(entities(old(objects)@), result) {
            exists|turns: nat| #[trigger]
                round_stopped(
                    entities(old(objects)@),
                    old(game)@,
                    *fov,
                    turns,
                    entities(final(objects)@),
                    final(game)@,
                    done,
                )
        } else {
            &&& done == (old(objects).len() > PLAYER)
            &&& entities(final(objects)@) == entities(old(objects)@)
            &&& final(game)@ == old(game)@
        },
        old(objects).len() > PLAYER && steady(entities(old(objects)@), old(game)@, 0) ==> done,
{
    if objects.len() <= PLAYER {
        return false;
    }
    assert(entities(objects@)[PLAYER as int] == objects[PLAYER as int]@);
    let took_turn = match result {
        PlayerAction::DidntTakeTurn => false,
        _ => true,
    };
    if objects[PLAYER].alive && took_turn {
        monsters_turn_checked(objects, fov, game)
    } else {
        true
    }
}

} // verus!
