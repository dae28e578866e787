//! Choosing what a spell hits: the nearest monster in sight, or the cell
//! or the monster under the pointer.

use vstd::prelude::*;
use crate::constants::{MAP_HEIGHT, MAP_WIDTH, PLAYER};
use crate::entity::{Entity, GameObject, entities, squared_distance};
use crate::fov::FovMap;

verus! {

/// Whether the entity at `id` can be hit by a bolt: it is not the player,
/// it fights, it acts, and it stands on a cell that is seen.
pub open spec fn is_target(objects: Seq<Entity>, fov: FovMap, id: int) -> bool {
    &&& id != PLAYER
    &&& objects[id].fighter is Some
    &&& objects[id].ai is Some
    &&& fov.sees(objects[id].x as int, objects[id].y as int)
}

/// The square of the distance from the player to the entity at `id`.
pub open spec fn gap(objects: Seq<Entity>, id: int) -> int {
    squared_distance(
        objects[PLAYER as int].x as int,
        objects[PLAYER as int].y as int,
        objects[id].x as int,
        objects[id].y as int,
    )
}

/// Whether a distance whose square is `squared` lies within a range of
/// `max_range` cells: it is no more than the range. Nothing lies within a
/// negative range.
pub open spec fn in_reach(squared: int, max_range: int) -> bool {
    max_range >= 0 && squared <= max_range * max_range
}

/// Whether `found` is the nearest target within `max_range`: nothing, where
/// no target is within the range; else the target within the range that is
/// nearer than every target before it and as near as every target after
/// it.
pub open spec fn is_closest(
    objects: Seq<Entity>,
    fov: FovMap,
    max_range: int,
    found: Option<usize>,
) -> bool {
    match found {
        Some(id) => {
            &&& id < objects.len()
            &&& is_target(objects, fov, id as int)
            &&& in_reach(gap(objects, id as int), max_range)
            &&& forall|j: int|
                0 <= j < objects.len() && #[trigger] is_target(objects, fov, j) ==> gap(
                    objects,
                    id as int,
                ) <= gap(objects, j) && (j < id ==> gap(objects, id as int) < gap(objects, j))
        },
        None => forall|j: int|
            0 <= j < objects.len() && #[trigger] is_target(objects, fov, j) ==> !in_reach(
                gap(objects, j),
                max_range,
            ),
    }
}

/// Only one answer is the nearest target.
pub proof fn lemma_closest_is_unique(
    objects: Seq<Entity>,
    fov: FovMap,
    max_range: int,
    a: Option<usize>,
    b: Option<usize>,
)
    requires
        is_closest(objects, fov, max_range, a),
        is_closest(objects, fov, max_range, b),
    ensures
        a == b,
{
    match (a, b) {
        (Some(i), Some(j)) => {
            assert(is_target(objects, fov, i as int));
            assert(is_target(objects, fov, j as int));
        },
        (Some(i), None) => {
            assert(is_target(objects, fov, i as int));
        },
        (None, Some(j)) => {
            assert(is_target(objects, fov, j as int));
        },
        (None, None) => {},
    }
}

/// The nearest target within `max_range`: see [`is_closest`].
pub open spec fn nearest(objects: Seq<Entity>, fov: FovMap, max_range: int) -> Option<usize> {
    choose|found: Option<usize>| is_closest(objects, fov, max_range, found)
}

/// The nearest monster in sight that is no more than `max_range` cells from
/// the player; of two that are equally near, the one that comes first.
pub fn closest_monster(max_range: i32, objects: &Vec<GameObject>, fov: &FovMap) -> (found: Option<
    usize,
>)
    ensures
        is_closest(entities(objects@), *fov, max_range as int, found),
        found == nearest(entities(objects@), *fov, max_range as int),
{
    let mut closest_enemy: Option<usize> = None;
    let mut closest_dist: i128 = 0;
    let limit: i128 = if max_range >= 0 {
        let edge: i128 = max_range as i128;
        assert(edge * edge <= 0x8000_0000 * 0x8000_0000) by (nonlinear_arith)
            requires
                0 <= edge <= 0x8000_0000,
        ;
        edge * edge
    } else {
        0
    };
    let ghost all = entities(objects@);
    let mut id: usize = 0;
    while id < objects.len()
        invariant
            id <= objects.len(),
            all == entities(objects@),
            max_range >= 0 ==> limit == max_range * max_range,
            match closest_enemy {
                Some(best) => {
                    &&& best < id
                    &&& is_target(all, *fov, best as int)
                    &&& gap(all, best as int) == closest_dist
                    &&& in_reach(closest_dist as int, max_range as int)
                    &&& forall|j: int|
                        0 <= j < id && #[trigger] is_target(all, *fov, j) ==> closest_dist <= gap(
                            all,
                            j,
                        ) && (j < best ==> closest_dist < gap(all, j))
                },
                None => forall|j: int|
                    0 <= j < id && #[trigger] is_target(all, *fov, j) ==> !in_reach(
                        gap(all, j),
                        max_range as int,
                    ),
            },
        decreases objects.len() - id,
    {
        assert(all[id as int] == objects[id as int]@);
        assert(all[PLAYER as int] == objects[PLAYER as int]@);
        if id != PLAYER && objects[id].fighter.is_some() && objects[id].ai.is_some()
            && fov.is_in_fov(objects[id].x, objects[id].y) {
            let dist = objects[PLAYER].distance_squared_to(&objects[id]);
            let within_range = max_range >= 0 && dist <= limit;
            let nearer = match closest_enemy {
                Some(_) => dist < closest_dist,
                None => true,
            };
            if within_range && nearer {
                closest_enemy = Some(id);
                closest_dist = dist;
            }
        }
        id += 1;
    }
    proof {
        lemma_closest_is_unique(
            all,
            *fov,
            max_range as int,
            closest_enemy,
            nearest(all, *fov, max_range as int),
        );
    }
    closest_enemy
}

/// The pointer: the cell under it and which buttons were pressed.
#[derive(Clone, Copy, Debug, PartialEq, Eq, Structural)]
pub struct Pointer {
    pub cx: i32,
    pub cy: i32,
    pub lbutton_pressed: bool,
    pub rbutton_pressed: bool,
}

/// Where the choice of a target stands after one input event.
#[derive(Debug, PartialEq, Eq, Structural)]
pub enum Targeting<T> {
    /// The target was chosen.
    Chosen(T),
    /// The player gave up.
    Cancelled,
    /// Neither: the next event decides.
    Waiting,
}

/// Whether the cell `(x, y)` is within `max_range` cells of the player,
/// where there is a range.
pub open spec fn within(objects: Seq<Entity>, max_range: Option<i32>, x: int, y: int) -> bool {
    match max_range {
        Some(range) => range >= 0 && squared_distance(
            objects[PLAYER as int].x as int,
            objects[PLAYER as int].y as int,
            x,
            y,
        ) <= range * range,
        None => true,
    }
}

/// Whether the cell under the pointer can be chosen: it is on the grid, it
/// is seen, and it is within range.
pub open spec fn can_choose(
    pointer: Pointer,
    objects: Seq<Entity>,
    fov: FovMap,
    max_range: Option<i32>,
) -> bool {
    &&& pointer.cx < MAP_WIDTH
    &&& pointer.cy < MAP_HEIGHT
    &&& fov.sees(pointer.cx as int, pointer.cy as int)
    &&& within(objects, max_range, pointer.cx as int, pointer.cy as int)
}

/// What one input event does to the choice of a cell.
pub open spec fn tile_step(
    pointer: Pointer,
    escape: bool,
    objects: Seq<Entity>,
    fov: FovMap,
    max_range: Option<i32>,
) -> Targeting<(i32, i32)> {
    if pointer.lbutton_pressed && can_choose(pointer, objects, fov, max_range) {
        Targeting::Chosen((pointer.cx, pointer.cy))
    } else if pointer.rbutton_pressed || escape {
        Targeting::Cancelled
    } else {
        Targeting::Waiting
    }
}

/// One step of choosing a cell: a click of the first button on a cell that
/// is seen and within range chooses it; else the second button or the
/// escape key cancels; else the choice goes on.
pub fn target_tile(
    pointer: &Pointer,
    escape: bool,
    objects: &Vec<GameObject>,
    fov: &FovMap,
    max_range: Option<i32>,
) -> (step: Targeting<(i32, i32)>)
    requires
        max_range is Some ==> objects.len() > PLAYER,
    ensures
        step == tile_step(*pointer, escape, entities(objects@), *fov, max_range),
{
    let x = pointer.cx;
    let y = pointer.cy;
    let in_fov = x < MAP_WIDTH && y < MAP_HEIGHT && fov.is_in_fov(x, y);
    let in_range = match max_range {
        Some(range) => {
            assert(entities(objects@)[PLAYER as int] == objects[PLAYER as int]@);
            if range >= 0 {
                let edge: i128 = range as i128;
                assert(edge * edge <= 0x8000_0000 * 0x8000_0000) by (nonlinear_arith)
                    requires
                        0 <= edge <= 0x8000_0000,
                ;
                objects[PLAYER].distance_squared(x, y) <= edge * edge
            } else {
                false
            }
        },
        None => true,
    };
    if pointer.lbutton_pressed && in_fov && in_range {
        return Targeting::Chosen((x, y));
    }
    if pointer.rbutton_pressed || escape {
        return Targeting::Cancelled;
    }
    Targeting::Waiting
}

/// Whether the entity at `id` can be picked on `(x, y)`: it stands there,
/// it fights, and it is not the player.
pub open spec fn is_pick(objects: Seq<Entity>, id: int, x: int, y: int) -> bool {
    objects[id].x == x && objects[id].y == y && objects[id].fighter is Some && id != PLAYER
}

/// Whether `found` is the first entity that can be picked on `(x, y)`.
pub open spec fn is_first_pick(objects: Seq<Entity>, x: int, y: int, found: Option<usize>) -> bool {
    match found {
        Some(id) => id < objects.len() && is_pick(objects, id as int, x, y) && forall|j: int|
            0 <= j < id ==> !#[trigger] is_pick(objects, j, x, y),
        None => forall|j: int| 0 <= j < objects.len() ==> !#[trigger] is_pick(objects, j, x, y),
    }
}

/// The first monster on the cell `(x, y)`.
pub fn monster_on(x: i32, y: i32, objects: &Vec<GameObject>) -> (found: Option<usize>)
    ensures
        is_first_pick(entities(objects@), x as int, y as int, found),
{
    let mut id: usize = 0;
    while id < objects.len()
        invariant
            id <= objects.len(),
            forall|j: int|
                0 <= j < id ==> !#[trigger] is_pick(entities(objects@), j, x as int, y as int),
        decreases objects.len() - id,
    {
        assert(entities(objects@)[id as int] == objects[id as int]@);
        if objects[id].x == x && objects[id].y == y && objects[id].fighter.is_some() && id
            != PLAYER {
            return Some(id);
        }
        id += 1;
    }
    None
}

/// One step of choosing a monster: as for a cell, but a cell is chosen
/// only for the first monster that stands on it; a click on a cell without
/// one leaves the choice open.
pub fn target_monster(
    pointer: &Pointer,
    escape: bool,
    objects: &Vec<GameObject>,
    fov: &FovMap,
    max_range: Option<i32>,
) -> (step: Targeting<usize>)
    requires
        max_range is Some ==> objects.len() > PLAYER,
    ensures
        match tile_step(*pointer, escape, entities(objects@), *fov, max_range) {
            Targeting::Chosen(cell) => match step {
                Targeting::Chosen(id) => is_first_pick(
                    entities(objects@),
                    cell.0 as int,
                    cell.1 as int,
                    Some(id),
                ),
                Targeting::Waiting => is_first_pick(
                    entities(objects@),
                    cell.0 as int,
                    cell.1 as int,
                    None,
                ),
                Targeting::Cancelled => false,
            },
            Targeting::Cancelled => step == Targeting::<usize>::Cancelled,
            Targeting::Waiting => step == Targeting::<usize>::Waiting,
        },
{
    match target_tile(pointer, escape, objects, fov, max_range) {
        Targeting::Chosen(cell) => match monster_on(cell.0, cell.1, objects) {
            Some(id) => Targeting::Chosen(id),
            None => Targeting::Waiting,
        },
        Targeting::Cancelled => Targeting::Cancelled,
        Targeting::Waiting => Targeting::Waiting,
    }
}

/// The nearest target among the first `n` objects, found as
/// [`closest_monster`] finds it: going through the objects in their order
/// and keeping one within the range that is nearer than the nearest so
/// far.
pub open spec fn nearest_among(objects: Seq<Entity>, fov: FovMap, max_range: int, n: nat) -> Option<
    usize,
>
    decreases n,
{
    if n == 0 {
        None
    } else {
        let id = (n - 1) as int;
        let before = nearest_among(objects, fov, max_range, (n - 1) as nat);
        let nearer = match before {
            Some(best) => gap(objects, id) < gap(objects, best as int),
            None => true,
        };
        if is_target(objects, fov, id) && in_reach(gap(objects, id), max_range) && nearer {
            Some(id as usize)
        } else {
            before
        }
    }
}

/// Whether `found` is the nearest target within `max_range` among the
/// first `n` objects.
pub open spec fn is_closest_among(
    objects: Seq<Entity>,
    fov: FovMap,
    max_range: int,
    n: int,
    found: Option<usize>,
) -> bool {
    match found {
        Some(id) => {
            &&& id < n
            &&& is_target(objects, fov, id as int)
            &&& in_reach(gap(objects, id as int), max_range)
            &&& forall|j: int|
                0 <= j < n && #[trigger] is_target(objects, fov, j) ==> gap(objects, id as int)
                    <= gap(objects, j) && (j < id ==> gap(objects, id as int) < gap(objects, j))
        },
        None => forall|j: int|
            0 <= j < n && #[trigger] is_target(objects, fov, j) ==> !in_reach(
                gap(objects, j),
                max_range,
            ),
    }
}

proof fn lemma_nearest_among(objects: Seq<Entity>, fov: FovMap, max_range: int, n: nat)
    requires
        n <= objects.len(),
        objects.len() <= usize::MAX,
    ensures
        is_closest_among(
            objects,
            fov,
            max_range,
            n as int,
            nearest_among(objects, fov, max_range, n),
        ),
    decreases n,
{
    if n > 0 {
        lemma_nearest_among(objects, fov, max_range, (n - 1) as nat);
    }
}

/// Among any objects there is a nearest target within range, or none is
/// that near: [`nearest`] is the monster in sight that is strictly nearer
/// to the player than every target before it and at least as near as every
/// target after it, and the same objects give the same answer.
pub proof fn lemma_nearest_is_closest(objects: Seq<Entity>, fov: FovMap, max_range: int)
    requires
        objects.len() <= usize::MAX,
    ensures
        is_closest(objects, fov, max_range, nearest(objects, fov, max_range)),
        nearest(objects, fov, max_range) == nearest_among(
            objects,
            fov,
            max_range,
            objects.len(),
        ),
{
    lemma_nearest_among(objects, fov, max_range, objects.len());
    let found = nearest_among(objects, fov, max_range, objects.len());
    assert(is_closest(objects, fov, max_range, found));
    lemma_closest_is_unique(objects, fov, max_range, found, nearest(objects, fov, max_range));
}

} // verus!
