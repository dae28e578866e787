//! What the potions and scrolls do.

use vstd::prelude::*;
use vstd::string::*;
use crate::color::{
    light_blue, light_cyan, light_green, light_violet, orange, red, spec_light_blue,
    spec_light_cyan, spec_light_green, spec_light_violet, spec_orange, spec_red,
};
use crate::combat::{
    Stat, after_damage, can_take, damage_lines, damage_xp, dies, effective, fits, healed,
    is_small, with_xp,
};
use crate::constants::{
    CONFUSE_NUM_TURNS, CONFUSE_RANGE, FIREBALL_DAMAGE, FIREBALL_RADIUS, HEAL_AMOUNT,
    LIGHTNING_DAMAGE,
    LIGHTNING_RANGE, PLAYER, create_damage_message, create_radius_message, damage_message,
    radius_message,
};
use crate::entity::{
    Ai, DeathCallback, Entity, Fighter, Game, GameObject, Item, Line, MessageLog, Session,
    entities, squared_distance,
};
use crate::fov::FovMap;
use crate::items::UseResult;
use crate::targeting::{closest_monster, nearest};
use crate::text::{append_decimal, decimal};

verus! {

/// Whether a healing potion has something to do for the player: the player
/// fights and is not at its most hit points.
pub open spec fn can_heal(player: Entity, inventory: Seq<Entity>) -> bool {
    player.fighter is Some && player.fighter->0.hp != effective(player, inventory, Stat::MaxHp)
}

/// The result of drinking a healing potion.
pub open spec fn heal_result(objects: Seq<Entity>, inventory: Seq<Entity>) -> UseResult {
    if can_heal(objects[PLAYER as int], inventory) {
        UseResult::UsedUp
    } else {
        UseResult::Cancelled
    }
}

/// The objects after a healing potion is drunk.
pub open spec fn after_heal(objects: Seq<Entity>, inventory: Seq<Entity>) -> Seq<Entity> {
    if can_heal(objects[PLAYER as int], inventory) {
        objects.update(
            PLAYER as int,
            healed(
                objects[PLAYER as int],
                HEAL_AMOUNT as int,
                effective(objects[PLAYER as int], inventory, Stat::MaxHp),
            ),
        )
    } else {
        objects
    }
}

/// The lines that drinking a healing potion adds to the log.
pub open spec fn heal_lines(objects: Seq<Entity>, inventory: Seq<Entity>) -> Seq<Line> {
    if objects[PLAYER as int].fighter is None {
        seq![]
    } else if can_heal(objects[PLAYER as int], inventory) {
        seq![("Your wounds start to close up!"@, spec_light_violet())]
    } else {
        seq![("You are already at full health."@, spec_red())]
    }
}

/// Whether a healing potion can be drunk within the machine's integers:
/// the most hit points of a player that fights fit them, and so do the hit
/// points with the potion's added, where the potion heals.
pub open spec fn can_cast_heal(objects: Seq<Entity>, inventory: Seq<Entity>) -> bool {
    &&& objects.len() > PLAYER
    &&& objects[PLAYER as int].fighter is Some ==> {
        &&& fits(effective(objects[PLAYER as int], inventory, Stat::MaxHp))
        &&& can_heal(objects[PLAYER as int], inventory) ==> fits(
            objects[PLAYER as int].fighter->0.hp + HEAL_AMOUNT,
        )
    }
}

/// Drinks a healing potion: the player gets a fixed number of hit points
/// back, up to its most, and the potion is used up. A player at its most
/// hit points cancels, and so does one that does not fight. Afterwards the
/// player has no more hit points than its most.
pub fn cast_heal(_inventory_id: usize, objects: &mut Vec<GameObject>, game: &mut Game) -> (result:
    UseResult)
    requires
        can_cast_heal(entities(old(objects)@), old(game)@.inventory),
    ensures
        result == heal_result(entities(old(objects)@), old(game)@.inventory),
        entities(final(objects)@) == after_heal(entities(old(objects)@), old(game)@.inventory),
        final(game)@ == (Session {
            log: old(game)@.log + heal_lines(entities(old(objects)@), old(game)@.inventory),
            ..old(game)@
        }),
        final(objects)[PLAYER as int].fighter is Some
            ==> final(objects)[PLAYER as int].fighter->0.hp <= effective(
            final(objects)[PLAYER as int]@,
            final(game)@.inventory,
            Stat::MaxHp,
        ),
{
    assert(entities(objects@)[PLAYER as int] == objects[PLAYER as int]@);
    if let Some(fighter) = objects[PLAYER].fighter {
        if fighter.hp == objects[PLAYER].max_hp(game) {
            game.log.add("You are already at full health.", red());
            assert(game@.log =~= old(game)@.log + heal_lines(
                entities(old(objects)@),
                old(game)@.inventory,
            ));
            return UseResult::Cancelled;
        }
        game.log.add("Your wounds start to close up!", light_violet());
        objects[PLAYER].heal(HEAL_AMOUNT, game);
        assert(entities(objects@) =~= entities(old(objects)@).update(
            PLAYER as int,
            objects[PLAYER as int]@,
        ));
        assert(game@.log =~= old(game)@.log + heal_lines(
            entities(old(objects)@),
            old(game)@.inventory,
        ));
        return UseResult::UsedUp;
    }
    assert(game@.log =~= old(game)@.log + heal_lines(
        entities(old(objects)@),
        old(game)@.inventory,
    ));
    UseResult::Cancelled
}

/// The log line for a lightning bolt that strikes the entity called `name`.
pub open spec fn lightning_message(name: Seq<char>) -> Seq<char> {
    "A lightning bolt strikes the "@ + name + " with a loud thunder! \n The damage is "@
        + decimal(LIGHTNING_DAMAGE as int) + " hit points "@
}

/// The objects after the one at `id` has taken `damage` and the player has
/// got the experience of its death.
pub open spec fn struck(objects: Seq<Entity>, id: int, damage: int) -> Seq<Entity> {
    let hit = objects.update(id, after_damage(objects[id], damage));
    match damage_xp(objects[id], damage) {
        Some(xp) => hit.update(PLAYER as int, with_xp(hit[PLAYER as int], xp as int)),
        None => hit,
    }
}

/// Whether the object at `id` can take `damage`, and the player the
/// experience of its death, within the machine's integers.
pub open spec fn can_strike(objects: Seq<Entity>, id: int, damage: int) -> bool {
    &&& can_take(objects[id], damage)
    &&& match damage_xp(objects[id], damage) {
        Some(xp) => {
            let hit = objects.update(id, after_damage(objects[id], damage));
            hit[PLAYER as int].fighter is Some && fits(hit[PLAYER as int].fighter->0.xp + xp)
        },
        None => true,
    }
}

/// Damages the object at `id` and credits the player with the experience
/// of its death.
pub fn strike(id: usize, damage: i32, objects: &mut Vec<GameObject>, game: &mut Game)
    requires
        id < old(objects).len(),
        can_strike(entities(old(objects)@), id as int, damage as int),
    ensures
        entities(final(objects)@) == struck(entities(old(objects)@), id as int, damage as int),
        final(game)@ == (Session {
            log: old(game)@.log + damage_lines(old(objects)[id as int]@, damage as int),
            ..old(game)@
        }),
{
    assert(entities(objects@)[id as int] == objects[id as int]@);
    let gained = objects[id].take_damage(damage, game);
    let ghost hit = entities(objects@);
    assert(hit =~= entities(old(objects)@).update(
        id as int,
        after_damage(old(objects)[id as int]@, damage as int),
    ));
    if let Some(xp) = gained {
        assert(hit[PLAYER as int] == objects[PLAYER as int]@);
        if let Some(ref mut fighter) = objects[PLAYER].fighter {
            fighter.xp += xp;
        }
        assert(entities(objects@) =~= hit.update(
            PLAYER as int,
            with_xp(hit[PLAYER as int], xp as int),
        ));
    }
}

/// The result of reading a scroll of lightning.
pub open spec fn lightning_result(objects: Seq<Entity>, fov: FovMap) -> UseResult {
    if nearest(objects, fov, LIGHTNING_RANGE as int) is Some {
        UseResult::UsedUp
    } else {
        UseResult::Cancelled
    }
}

/// The objects after a scroll of lightning is read.
pub open spec fn after_lightning(objects: Seq<Entity>, fov: FovMap) -> Seq<Entity> {
    match nearest(objects, fov, LIGHTNING_RANGE as int) {
        Some(id) => struck(objects, id as int, LIGHTNING_DAMAGE as int),
        None => objects,
    }
}

/// The lines that reading a scroll of lightning adds to the log.
pub open spec fn lightning_lines(objects: Seq<Entity>, fov: FovMap) -> Seq<Line> {
    match nearest(objects, fov, LIGHTNING_RANGE as int) {
        Some(id) => seq![(lightning_message(objects[id as int].name), spec_light_blue())]
            + damage_lines(objects[id as int], LIGHTNING_DAMAGE as int),
        None => seq![("No enemy is close enough to strike."@, spec_red())],
    }
}

/// Whether a scroll of lightning can be read within the machine's
/// integers.
pub open spec fn can_cast_lightning(objects: Seq<Entity>, fov: FovMap) -> bool {
    match nearest(objects, fov, LIGHTNING_RANGE as int) {
        Some(id) => can_strike(objects, id as int, LIGHTNING_DAMAGE as int),
        None => true,
    }
}

/// Reads a scroll of lightning: the nearest monster in sight within range
/// takes a fixed damage, and the scroll is used up. With no such monster
/// the scroll cancels.
pub fn cast_lightning(
    _inventory_id: usize,
    objects: &mut Vec<GameObject>,
    game: &mut Game,
    fov: &FovMap,
) -> (result: UseResult)
    requires
        can_cast_lightning(entities(old(objects)@), *fov),
    ensures
        result == lightning_result(entities(old(objects)@), *fov),
        entities(final(objects)@) == after_lightning(entities(old(objects)@), *fov),
        final(game)@ == (Session {
            log: old(game)@.log + lightning_lines(entities(old(objects)@), *fov),
            ..old(game)@
        }),
{
    let monster_id = closest_monster(LIGHTNING_RANGE, objects, fov);
    if let Some(monster_id) = monster_id {
        assert(entities(objects@)[monster_id as int] == objects[monster_id as int]@);
        let mut text = String::from_str("A lightning bolt strikes the ");
        text.append(objects[monster_id].name.as_str());
        text.append(" with a loud thunder! \n The damage is ");
        append_decimal(&mut text, LIGHTNING_DAMAGE as i64);
        text.append(" hit points ");
        game.log.add(text.as_str(), light_blue());
        strike(monster_id, LIGHTNING_DAMAGE, objects, game);
        assert(game@.log =~= old(game)@.log + lightning_lines(entities(old(objects)@), *fov));
        UseResult::UsedUp
    } else {
        game.log.add("No enemy is close enough to strike.", red());
        assert(game@.log =~= old(game)@.log + lightning_lines(entities(old(objects)@), *fov));
        UseResult::Cancelled
    }
}

/// What kind of target an item asks for before it is used.
#[derive(Clone, Copy, Debug, PartialEq, Eq, Structural)]
pub enum Aim {
    /// None: the item can be used at once.
    Nothing,
    /// A monster within so many cells of the player.
    Monster(i32),
    /// A cell, however far.
    Tile,
}

/// The target that an item of the given kind asks for.
pub open spec fn aim_of(item: Item) -> Aim {
    match item {
        Item::Confuse => Aim::Monster(CONFUSE_RANGE),
        Item::Fireball => Aim::Tile,
        _ => Aim::Nothing,
    }
}

/// The lines that ask the player for the target of an item.
pub open spec fn aim_lines(item: Item) -> Seq<Line> {
    match item {
        Item::Confuse => seq![
            ("Left-click an enemy to confuse it, or right-click to cancel."@, spec_light_cyan()),
        ],
        Item::Fireball => seq![
            (
                "Left-click a target tile for the fireball, or right-click to cancel."@,
                spec_light_cyan(),
            ),
        ],
        _ => seq![],
    }
}

/// Says which target an item asks for, and logs the request to the player
/// where it asks for one.
pub fn take_aim(item: Item, game: &mut Game) -> (aim: Aim)
    ensures
        aim == aim_of(item),
        final(game)@ == (Session { log: old(game)@.log + aim_lines(item), ..old(game)@ }),
{
    match item {
        Item::Confuse => {
            game.log.add(
                "Left-click an enemy to confuse it, or right-click to cancel.",
                light_cyan(),
            );
            assert(game@.log =~= old(game)@.log + aim_lines(item));
            Aim::Monster(CONFUSE_RANGE)
        },
        Item::Fireball => {
            game.log.add(
                "Left-click a target tile for the fireball, or right-click to cancel.",
                light_cyan(),
            );
            assert(game@.log =~= old(game)@.log + aim_lines(item));
            Aim::Tile
        },
        _ => {
            assert(game@.log =~= old(game)@.log + aim_lines(item));
            Aim::Nothing
        },
    }
}

/// The entity with its behaviour wrapped in confusion for a fixed number of
/// turns. One without a behaviour gets the basic one to come back to.
pub open spec fn confused(e: Entity) -> Entity {
    Entity {
        ai: Some(
            Ai::Confused {
                previous_ai: Box::new(
                    match e.ai {
                        Some(ai) => ai,
                        None => Ai::Basic,
                    },
                ),
                num_turns: CONFUSE_NUM_TURNS,
            },
        ),
        ..e
    }
}

/// The log line for the entity called `name` that gets confused.
pub open spec fn confuse_message(name: Seq<char>) -> Seq<char> {
    "The eyes of the "@ + name + " look vacant, as it starts to stumble around!"@
}

/// The result of reading a scroll of confusion on the chosen monster.
pub open spec fn confuse_result(monster_id: Option<usize>) -> UseResult {
    if monster_id is Some {
        UseResult::UsedUp
    } else {
        UseResult::Cancelled
    }
}

/// The objects after a scroll of confusion is read.
pub open spec fn after_confuse(objects: Seq<Entity>, monster_id: Option<usize>) -> Seq<Entity> {
    match monster_id {
        Some(id) => objects.update(id as int, confused(objects[id as int])),
        None => objects,
    }
}

/// The lines that reading a scroll of confusion adds to the log.
pub open spec fn confuse_lines(objects: Seq<Entity>, monster_id: Option<usize>) -> Seq<Line> {
    match monster_id {
        Some(id) => seq![(confuse_message(objects[id as int].name), spec_light_green())],
        None => seq![("No enemy is close enough to strike."@, spec_red())],
    }
}

/// Reads a scroll of confusion on the monster that the player chose: the
/// monster is confused for a fixed number of turns and the scroll is used
/// up. Without a monster the scroll cancels.
pub fn cast_confuse(
    _inventory_id: usize,
    objects: &mut Vec<GameObject>,
    game: &mut Game,
    monster_id: Option<usize>,
) -> (result: UseResult)
    requires
        monster_id is Some ==> monster_id->0 < old(objects).len(),
    ensures
        result == confuse_result(monster_id),
        entities(final(objects)@) == after_confuse(entities(old(objects)@), monster_id),
        final(game)@ == (Session {
            log: old(game)@.log + confuse_lines(entities(old(objects)@), monster_id),
            ..old(game)@
        }),
{
    if let Some(monster_id) = monster_id {
        let old_ai = match objects[monster_id].ai.take() {
            Some(ai) => ai,
            None => Ai::Basic,
        };
        objects[monster_id].ai = Some(
            Ai::Confused { previous_ai: Box::new(old_ai), num_turns: CONFUSE_NUM_TURNS },
        );
        let mut text = String::from_str("The eyes of the ");
        text.append(objects[monster_id].name.as_str());
        text.append(" look vacant, as it starts to stumble around!");
        game.log.add(text.as_str(), light_green());
        assert(entities(objects@) =~= entities(old(objects)@).update(
            monster_id as int,
            confused(old(objects)[monster_id as int]@),
        ));
        assert(game@.log =~= old(game)@.log + confuse_lines(
            entities(old(objects)@),
            Some(monster_id),
        ));
        UseResult::UsedUp
    } else {
        game.log.add("No enemy is close enough to strike.", red());
        assert(game@.log =~= old(game)@.log + confuse_lines(entities(old(objects)@), None));
        UseResult::Cancelled
    }
}

/// Whether a fireball on `(x, y)` burns the entity: it fights and is within
/// the radius of the cell, the radius itself included.
pub open spec fn burns(e: Entity, x: int, y: int) -> bool {
    squared_distance(e.x as int, e.y as int, x, y) <= FIREBALL_RADIUS * FIREBALL_RADIUS
        && e.fighter is Some
}

/// The entity after a fireball on `(x, y)`.
pub open spec fn scorched(e: Entity, x: int, y: int) -> Entity {
    if burns(e, x, y) {
        after_damage(e, FIREBALL_DAMAGE as int)
    } else {
        e
    }
}

/// The objects after a fireball on `(x, y)` has burned them, before the
/// player is credited with the deaths.
pub open spec fn blast(objects: Seq<Entity>, x: int, y: int) -> Seq<Entity> {
    objects.map_values(|e: Entity| scorched(e, x, y))
}

/// The lines that the burning of one entity adds to the log.
pub open spec fn burn_lines(e: Entity, x: int, y: int) -> Seq<Line> {
    if burns(e, x, y) {
        seq![(damage_message(e.name), spec_orange())] + damage_lines(e, FIREBALL_DAMAGE as int)
    } else {
        seq![]
    }
}

/// The lines that the burning of the objects adds to the log, in their
/// order.
pub open spec fn blast_lines(objects: Seq<Entity>, x: int, y: int) -> Seq<Line>
    decreases objects.len(),
{
    if objects.len() == 0 {
        seq![]
    } else {
        blast_lines(objects.drop_last(), x, y) + burn_lines(objects.last(), x, y)
    }
}

/// The experience that the death of the entity at `id` in the fire yields
/// to the player: none for the player's own death.
pub open spec fn burn_xp(e: Entity, id: int, x: int, y: int) -> int {
    if id != PLAYER && burns(e, x, y) {
        match damage_xp(e, FIREBALL_DAMAGE as int) {
            Some(xp) => xp as int,
            None => 0,
        }
    } else {
        0
    }
}

/// The experience of all that die in the fire, the player left out.
pub open spec fn blast_xp(objects: Seq<Entity>, x: int, y: int) -> int
    decreases objects.len(),
{
    if objects.len() == 0 {
        0
    } else {
        blast_xp(objects.drop_last(), x, y) + burn_xp(
            objects.last(),
            objects.len() - 1,
            x,
            y,
        )
    }
}

proof fn lemma_blast_xp_bound(objects: Seq<Entity>, x: int, y: int)
    ensures
        -0x8000_0000 * objects.len() <= blast_xp(objects, x, y) <= 0x8000_0000 * objects.len(),
    decreases objects.len(),
{
    if objects.len() > 0 {
        lemma_blast_xp_bound(objects.drop_last(), x, y);
    }
}

/// Whether a fireball on `(x, y)` stays within the machine's integers and
/// leaves a player that fights to credit.
pub open spec fn can_blast(objects: Seq<Entity>, x: int, y: int) -> bool {
    &&& objects.len() > PLAYER
    &&& forall|i: int|
        0 <= i < objects.len() && burns(#[trigger] objects[i], x, y) ==> can_take(
            objects[i],
            FIREBALL_DAMAGE as int,
        )
    &&& scorched(objects[PLAYER as int], x, y).fighter is Some
    &&& fits(scorched(objects[PLAYER as int], x, y).fighter->0.xp + blast_xp(objects, x, y))
}

/// The objects after a fireball on `(x, y)`: every fighter within the
/// radius has taken the damage, nothing else has changed, and the player
/// has the experience of all that died, added once.
pub open spec fn after_fireball(objects: Seq<Entity>, x: int, y: int) -> Seq<Entity> {
    blast(objects, x, y).update(
        PLAYER as int,
        with_xp(scorched(objects[PLAYER as int], x, y), blast_xp(objects, x, y)),
    )
}

/// The result of reading a scroll of fireball on the chosen cell.
pub open spec fn fireball_result(tile: Option<(i32, i32)>) -> UseResult {
    if tile is Some {
        UseResult::UsedUp
    } else {
        UseResult::Cancelled
    }
}

/// The objects after a scroll of fireball is read.
pub open spec fn after_fireball_on(objects: Seq<Entity>, tile: Option<(i32, i32)>) -> Seq<Entity> {
    match tile {
        Some((x, y)) => after_fireball(objects, x as int, y as int),
        None => objects,
    }
}

/// The lines that reading a scroll of fireball adds to the log.
pub open spec fn fireball_lines(objects: Seq<Entity>, tile: Option<(i32, i32)>) -> Seq<Line> {
    match tile {
        Some((x, y)) => seq![(radius_message(), spec_orange())] + blast_lines(
            objects,
            x as int,
            y as int,
        ),
        None => seq![],
    }
}

/// Whether a scroll of fireball can be read on the chosen cell.
pub open spec fn can_cast_fireball(objects: Seq<Entity>, tile: Option<(i32, i32)>) -> bool {
    match tile {
        Some((x, y)) => can_blast(objects, x as int, y as int),
        None => true,
    }
}

/// Reads a scroll of fireball on the cell that the player chose: every
/// fighter within the radius of the cell takes a fixed damage, the player
/// too, and nothing else changes; the experience of the monsters that die
/// is added to the player's once, after all have burned; the scroll is
/// used up. Without a cell the scroll cancels.
pub fn cast_fireball(
    _inventory_id: usize,
    objects: &mut Vec<GameObject>,
    game: &mut Game,
    tile: Option<(i32, i32)>,
) -> (result: UseResult)
    requires
        can_cast_fireball(entities(old(objects)@), tile),
    ensures
        result == fireball_result(tile),
        entities(final(objects)@) == after_fireball_on(entities(old(objects)@), tile),
        final(game)@ == (Session {
            log: old(game)@.log + fireball_lines(entities(old(objects)@), tile),
            ..old(game)@
        }),
{
    let (x, y) = match tile {
        Some(tile_pos) => tile_pos,
        None => {
            assert(game@.log =~= old(game)@.log + fireball_lines(entities(old(objects)@), tile));
            return UseResult::Cancelled;
        },
    };
    game.log.add(create_radius_message().as_str(), orange());
    let ghost before = entities(objects@);
    let ghost log0 = game@.log;
    let mut xp_to_gain: i128 = 0;
    let mut id: usize = 0;
    while id < objects.len()
        invariant
            id <= objects.len(),
            objects.len() == before.len(),
            can_blast(before, x as int, y as int),
            forall|j: int|
                0 <= j < id
                    ==> #[trigger] entities(objects@)[j] == scorched(before[j], x as int, y as int),
            forall|j: int|
                id <= j < objects.len() ==> #[trigger] entities(objects@)[j] == before[j],
            game@ == (Session {
                log: log0 + blast_lines(before.take(id as int), x as int, y as int),
                ..old(game)@
            }),
            xp_to_gain == blast_xp(before.take(id as int), x as int, y as int),
        decreases objects.len() - id,
    {
        proof {
            assert(entities(objects@)[id as int] == objects[id as int]@);
            assert(before.take(id + 1).drop_last() =~= before.take(id as int));
            assert(before.take(id + 1).last() == before[id as int]);
            lemma_blast_xp_bound(before.take(id as int), x as int, y as int);
        }
        let ghost log1 = game@.log;
        let ghost objects1 = entities(objects@);
        if objects[id].distance_squared(x, y) <= (FIREBALL_RADIUS * FIREBALL_RADIUS) as i128
            && objects[id].fighter.is_some() {
            game.log.add(create_damage_message(&objects[id].name).as_str(), orange());
            if let Some(xp) = objects[id].take_damage(FIREBALL_DAMAGE, game) {
                if id != PLAYER {
                    xp_to_gain = xp_to_gain + xp as i128;
                }
            }
        }
        proof {
            assert(game@.log =~= log1 + burn_lines(before[id as int], x as int, y as int));
            assert(game@.log =~= log0 + blast_lines(before.take(id + 1), x as int, y as int));
            let now = entities(objects@);
            assert(now =~= objects1.update(
                id as int,
                scorched(before[id as int], x as int, y as int),
            ));
        }
        id += 1;
    }
    proof {
        assert(before.take(id as int) =~= before);
        assert(entities(objects@) =~= blast(before, x as int, y as int));
        assert(entities(objects@)[PLAYER as int] == objects[PLAYER as int]@);
        assert(game@.log =~= old(game)@.log + fireball_lines(before, tile));
    }
    if let Some(ref mut fighter) = objects[PLAYER].fighter {
        fighter.xp = (fighter.xp as i128 + xp_to_gain) as i32;
    }
    assert(entities(objects@) =~= after_fireball(before, x as int, y as int));
    UseResult::UsedUp
}

/// The target that the player chose for an item.
#[derive(Clone, Copy, Debug, PartialEq, Eq, Structural)]
pub enum Target {
    /// None: the item asks for none, or the player gave up.
    Nothing,
    /// The monster at this place among the objects.
    Monster(usize),
    /// The cell with these coordinates.
    Tile(i32, i32),
}

impl Target {
    /// The monster that was chosen, if one was.
    pub open spec fn spec_monster(self) -> Option<usize> {
        match self {
            Target::Monster(id) => Some(id),
            _ => None,
        }
    }

    /// The cell that was chosen, if one was.
    pub open spec fn spec_tile(self) -> Option<(i32, i32)> {
        match self {
            Target::Tile(x, y) => Some((x, y)),
            _ => None,
        }
    }

    /// The monster that was chosen, if one was.
    #[verifier::when_used_as_spec(spec_monster)]
    pub fn monster(self) -> (id: Option<usize>)
        ensures
            id == self.spec_monster(),
    {
        match self {
            Target::Monster(id) => Some(id),
            _ => None,
        }
    }

    /// The cell that was chosen, if one was.
    #[verifier::when_used_as_spec(spec_tile)]
    pub fn tile(self) -> (cell: Option<(i32, i32)>)
        ensures
            cell == self.spec_tile(),
    {
        match self {
            Target::Tile(x, y) => Some((x, y)),
            _ => None,
        }
    }
}

/// Whether a healing potion can be drunk within the machine's integers.
pub fn heal_is_safe(objects: &Vec<GameObject>, game: &Game) -> (b: bool)
    ensures
        b == can_cast_heal(entities(objects@), game@.inventory),
{
    if objects.len() <= PLAYER {
        return false;
    }
    assert(entities(objects@)[PLAYER as int] == objects[PLAYER as int]@);
    match objects[PLAYER].fighter {
        Some(f) => {
            let most = objects[PLAYER].wide_stat(game, Stat::MaxHp);
            is_small(most) && (f.hp as i128 == most || is_small(
                f.hp as i128 + HEAL_AMOUNT as i128,
            ))
        },
        None => true,
    }
}

/// The fighter that is left of an entity after it has taken `damage`.
pub open spec fn fighter_after(e: Entity, damage: int) -> Option<Fighter> {
    after_damage(e, damage).fighter
}

/// The fighter that is left of the object after it has taken `damage`,
/// which it can take.
pub fn fighter_left(object: &GameObject, damage: i32) -> (left: Option<Fighter>)
    requires
        can_take(object@, damage as int),
    ensures
        left == fighter_after(object@, damage as int),
{
    match object.fighter {
        Some(f) => {
            let hp: i32 = if damage > 0 {
                f.hp - damage
            } else {
                f.hp
            };
            let hurt = Fighter { hp, ..f };
            if f.hp > 0 && hp <= 0 {
                match f.on_death {
                    DeathCallback::Player => Some(hurt),
                    DeathCallback::Monster => None,
                }
            } else {
                Some(hurt)
            }
        },
        None => None,
    }
}

/// The experience that the object yields when it takes `damage`, which it
/// can take.
pub fn xp_for(object: &GameObject, damage: i32) -> (xp: Option<i32>)
    requires
        can_take(object@, damage as int),
    ensures
        xp == damage_xp(object@, damage as int),
{
    match object.fighter {
        Some(f) => {
            let hp: i32 = if damage > 0 {
                f.hp - damage
            } else {
                f.hp
            };
            if f.hp > 0 && hp <= 0 {
                Some(f.xp)
            } else {
                None
            }
        },
        None => None,
    }
}

/// Whether the object at `id` can take `damage`, and the player the
/// experience of its death, within the machine's integers.
pub fn strike_is_safe(id: usize, damage: i32, objects: &Vec<GameObject>) -> (b: bool)
    requires
        id < objects.len(),
    ensures
        b == can_strike(entities(objects@), id as int, damage as int),
{
    assert(entities(objects@)[id as int] == objects[id as int]@);
    assert(entities(objects@)[PLAYER as int] == objects[PLAYER as int]@);
    if !objects[id].can_take_damage(damage) {
        return false;
    }
    match xp_for(&objects[id], damage) {
        Some(xp) => {
            let credited = if id == PLAYER {
                fighter_left(&objects[id], damage)
            } else {
                objects[PLAYER].fighter
            };
            match credited {
                Some(f) => is_small(f.xp as i128 + xp as i128),
                None => false,
            }
        },
        None => true,
    }
}

/// Whether a scroll of lightning can be read within the machine's
/// integers.
pub fn lightning_is_safe(objects: &Vec<GameObject>, fov: &FovMap) -> (b: bool)
    ensures
        b == can_cast_lightning(entities(objects@), *fov),
{
    match closest_monster(LIGHTNING_RANGE, objects, fov) {
        Some(id) => strike_is_safe(id, LIGHTNING_DAMAGE, objects),
        None => true,
    }
}

/// Whether a scroll of fireball can be read on the chosen cell.
pub fn fireball_is_safe(objects: &Vec<GameObject>, tile: Option<(i32, i32)>) -> (b: bool)
    ensures
        b == can_cast_fireball(entities(objects@), tile),
{
    let (x, y) = match tile {
        Some(cell) => cell,
        None => {
            return true;
        },
    };
    if objects.len() <= PLAYER {
        return false;
    }
    let ghost all = entities(objects@);
    let mut xp_to_gain: i128 = 0;
    let mut id: usize = 0;
    while id < objects.len()
        invariant
            id <= objects.len(),
            all == entities(objects@),
            tile == Some((x, y)),
            forall|j: int|
                0 <= j < id && burns(#[trigger] all[j], x as int, y as int) ==> can_take(
                    all[j],
                    FIREBALL_DAMAGE as int,
                ),
            xp_to_gain == blast_xp(all.take(id as int), x as int, y as int),
        decreases objects.len() - id,
    {
        proof {
            assert(all[id as int] == objects[id as int]@);
            assert(all.take(id + 1).drop_last() =~= all.take(id as int));
            assert(all.take(id + 1).last() == all[id as int]);
            lemma_blast_xp_bound(all.take(id as int), x as int, y as int);
        }
        if objects[id].distance_squared(x, y) <= (FIREBALL_RADIUS * FIREBALL_RADIUS) as i128
            && objects[id].fighter.is_some() {
            if !objects[id].can_take_damage(FIREBALL_DAMAGE) {
                assert(burns(all[id as int], x as int, y as int) && !can_take(
                    all[id as int],
                    FIREBALL_DAMAGE as int,
                ));
                return false;
            }
            if id != PLAYER {
                if let Some(xp) = xp_for(&objects[id], FIREBALL_DAMAGE) {
                    xp_to_gain = xp_to_gain + xp as i128;
                }
            }
        }
        id += 1;
    }
    proof {
        assert(all.take(id as int) =~= all);
        assert(all[PLAYER as int] == objects[PLAYER as int]@);
        lemma_blast_xp_bound(all, x as int, y as int);
    }
    let player = &objects[PLAYER];
    let left = if player.distance_squared(x, y) <= (FIREBALL_RADIUS * FIREBALL_RADIUS) as i128
        && player.fighter.is_some() {
        fighter_left(player, FIREBALL_DAMAGE)
    } else {
        player.fighter
    };
    match left {
        Some(f) => is_small(f.xp as i128 + xp_to_gain),
        None => false,
    }
}

/// A fireball on `(x, y)` damages every fighter within its radius, the
/// radius itself included, and nothing beyond: a fighter that near is as
/// after taking the damage, anything else is as it was; only the player
/// has, besides, the experience of the monsters that died, which is the sum
/// of what each death yields and is added once.
pub proof fn lemma_fireball_reach(objects: Seq<Entity>, x: int, y: int, i: int)
    requires
        objects.len() > PLAYER,
        0 <= i < objects.len(),
    ensures
        ({
            let near = objects[i].fighter is Some && squared_distance(
                objects[i].x as int,
                objects[i].y as int,
                x,
                y,
            ) <= FIREBALL_RADIUS * FIREBALL_RADIUS;
            let burned = if near {
                after_damage(objects[i], FIREBALL_DAMAGE as int)
            } else {
                objects[i]
            };
            after_fireball(objects, x, y)[i] == if i == PLAYER {
                with_xp(burned, blast_xp(objects, x, y))
            } else {
                burned
            }
        }),
{
}

/// The experience that a fireball yields is nothing where nothing dies of
/// it, and grows by the experience of each monster that does.
pub proof fn lemma_fireball_credit(objects: Seq<Entity>, last: Entity, x: int, y: int)
    requires
        objects.len() > PLAYER,
    ensures
        blast_xp(Seq::<Entity>::empty(), x, y) == 0,
        blast_xp(objects.push(last), x, y) == blast_xp(objects, x, y) + if burns(last, x, y)
            && dies(last, FIREBALL_DAMAGE as int) {
            last.fighter->0.xp as int
        } else {
            0
        },
{
    assert(objects.push(last).drop_last() =~= objects);
}

} // verus!
