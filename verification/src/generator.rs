//! Dungeon generation: the layout of rooms and corridors, and what stands
//! in the dungeon when it is new.

use vstd::prelude::*;
use crate::chance::{random_bool, random_in_range};
use crate::color::{spec_white, white};
use crate::constants::{MAP_HEIGHT, MAP_WIDTH, MAX_ROOMS, PLAYER, ROOM_MAX_SIZE, ROOM_MIN_SIZE};
use crate::dungeon::{
    Rect, carves, create_h_tunnel, create_room, create_v_tunnel, floor, grid_ok, on_grid,
    on_h_tunnel, on_v_tunnel,
};
use crate::entity::{Entity, GameObject, TileMap, entities, tiles};
use crate::population::{
    is_at, is_item_spawn, is_monster_spawn, lemma_populated, place_objects, placed_in, plain,
    populated,
};
use crate::tile::Tile;

verus! {

/// The tile of a cell that was never carved.
pub open spec fn rock() -> Tile {
    Tile { blocked: true, block_sight: true, explored: false }
}

/// Whether `(x, y)` lies on the corridor from `from` to `to` that bends
/// once: first along the row of `from` and then along the column of `to`,
/// or first along the column of `from` and then along the row of `to`.
pub open spec fn on_corridor(
    from: (int, int),
    to: (int, int),
    horizontal_first: bool,
    x: int,
    y: int,
) -> bool {
    if horizontal_first {
        on_h_tunnel(from.0, to.0, from.1, x, y) || on_v_tunnel(from.1, to.1, to.0, x, y)
    } else {
        on_v_tunnel(from.1, to.1, from.0, x, y) || on_h_tunnel(from.0, to.0, to.1, x, y)
    }
}

/// Whether every cell of that corridor is floor.
pub open spec fn corridor_open(
    map: Seq<Seq<Tile>>,
    from: (int, int),
    to: (int, int),
    horizontal_first: bool,
) -> bool {
    forall|x: int, y: int|
        on_grid(x, y) && on_corridor(from, to, horizontal_first, x, y) ==> #[trigger] map[x][y]
            == floor()
}

/// Whether a corridor with one bend joins the centers of the two rooms.
pub open spec fn linked(map: Seq<Seq<Tile>>, a: Rect, b: Rect) -> bool {
    corridor_open(map, a.spec_center(), b.spec_center(), true) || corridor_open(
        map,
        a.spec_center(),
        b.spec_center(),
        false,
    )
}

/// Whether `(x, y)` lies inside one of the rooms.
pub open spec fn in_some_room(rooms: Seq<Rect>, x: int, y: int) -> bool {
    exists|i: int| 0 <= i < rooms.len() && (#[trigger] rooms[i]).holds(x, y)
}

/// Whether `(x, y)` lies on one of the two corridors with one bend between
/// the centers of the rooms `i - 1` and `i`.
pub open spec fn between(rooms: Seq<Rect>, i: int, x: int, y: int) -> bool {
    on_corridor(rooms[i - 1].spec_center(), rooms[i].spec_center(), true, x, y) || on_corridor(
        rooms[i - 1].spec_center(),
        rooms[i].spec_center(),
        false,
        x,
        y,
    )
}

/// Whether `(x, y)` lies between two rooms that follow each other.
pub open spec fn on_some_link(rooms: Seq<Rect>, x: int, y: int) -> bool {
    exists|i: int| 0 < i < rooms.len() && #[trigger] between(rooms, i, x, y)
}

/// Whether a room has the size of a generated room and lies on the grid.
pub open spec fn room_ok(room: Rect) -> bool {
    &&& room.on_grid()
    &&& ROOM_MIN_SIZE <= room.x2 - room.x1 <= ROOM_MAX_SIZE
    &&& ROOM_MIN_SIZE <= room.y2 - room.y1 <= ROOM_MAX_SIZE
}

/// Whether `map` is the dungeon of `rooms`: no two rooms touch; the inside
/// of every room is floor; each room is joined to the one before it by a
/// corridor with one bend between their centers; and every other cell is
/// rock, a floor cell lying inside a room or between two rooms that follow
/// each other.
pub open spec fn laid_out(map: Seq<Seq<Tile>>, rooms: Seq<Rect>) -> bool {
    &&& grid_ok(map)
    &&& forall|i: int| 0 <= i < rooms.len() ==> room_ok(#[trigger] rooms[i])
    &&& forall|i: int, j: int|
        0 <= i < j < rooms.len() ==> !(#[trigger] rooms[i]).spec_intersects_with(
            #[trigger] rooms[j],
        )
    &&& forall|x: int, y: int|
        on_grid(x, y) && in_some_room(rooms, x, y) ==> #[trigger] map[x][y] == floor()
    &&& forall|i: int| 0 < i < rooms.len() ==> linked(map, rooms[i - 1], #[trigger] rooms[i])
    &&& forall|x: int, y: int|
        on_grid(x, y) ==> #[trigger] map[x][y] == floor() || map[x][y] == rock()
    &&& forall|x: int, y: int|
        on_grid(x, y) && #[trigger] map[x][y] == floor() ==> in_some_room(rooms, x, y)
            || on_some_link(rooms, x, y)
}

/// The stairs down at `(x, y)`.
pub open spec fn stairs(x: i32, y: i32) -> Entity {
    Entity { always_visible: true, ..plain(x, y, '<', "stairs"@, spec_white(), false) }
}

/// Whether the entity is a monster or an item of `level` inside one of the
/// rooms.
pub open spec fn settled(e: Entity, rooms: Seq<Rect>, level: u32) -> bool {
    &&& in_some_room(rooms, e.x as int, e.y as int)
    &&& is_monster_spawn(e, level) || is_item_spawn(e, level)
}

/// The entity moved to the center of `room`.
pub open spec fn at_center(e: Entity, room: Rect) -> Entity {
    Entity { x: room.spec_center().0 as i32, y: room.spec_center().1 as i32, ..e }
}

/// Whether `objects` are the player `first` and the population of the
/// rooms: the player at the center of the first room, once there is one;
/// after it monsters and items of `level`, each inside a room and no two
/// on one cell.
pub open spec fn peopled(
    first: Entity,
    objects: Seq<Entity>,
    rooms: Seq<Rect>,
    level: u32,
) -> bool {
    &&& objects.len() >= 1
    &&& objects[0] == if rooms.len() == 0 {
        first
    } else {
        at_center(first, rooms[0])
    }
    &&& forall|k: int| 1 <= k < objects.len() ==> settled(#[trigger] objects[k], rooms, level)
    &&& forall|j: int, k: int|
        1 <= j < k < objects.len() ==> !is_at(
            #[trigger] objects[j],
            (#[trigger] objects[k]).x as int,
            objects[k].y as int,
        )
}

fn rock_grid() -> (map: TileMap)
    ensures
        grid_ok(tiles(map@)),
        forall|x: int, y: int| on_grid(x, y) ==> #[trigger] tiles(map@)[x][y] == rock(),
{
    let mut map: TileMap = Vec::new();
    let mut x: i32 = 0;
    while x < MAP_WIDTH
        invariant
            0 <= x <= MAP_WIDTH,
            map.len() == x,
            forall|cx: int| 0 <= cx < x ==> (#[trigger] map[cx]).len() == MAP_HEIGHT,
            forall|cx: int, cy: int|
                0 <= cx < x && 0 <= cy < MAP_HEIGHT ==> #[trigger] map[cx][cy] == rock(),
        decreases MAP_WIDTH - x,
    {
        let mut column: Vec<Tile> = Vec::new();
        let mut y: i32 = 0;
        while y < MAP_HEIGHT
            invariant
                0 <= y <= MAP_HEIGHT,
                column.len() == y,
                forall|cy: int| 0 <= cy < y ==> #[trigger] column[cy] == rock(),
            decreases MAP_HEIGHT - y,
        {
            column.push(Tile::wall());
            y += 1;
        }
        map.push(column);
        x += 1;
    }
    assert forall|cx: int| 0 <= cx < MAP_WIDTH implies (#[trigger] tiles(map@)[cx]).len()
        == MAP_HEIGHT by {
        assert(tiles(map@)[cx] == map[cx]@);
    }
    assert forall|cx: int, cy: int| on_grid(cx, cy) implies #[trigger] tiles(map@)[cx][cy]
        == rock() by {
        assert(tiles(map@)[cx] == map[cx]@);
        assert(map[cx][cy] == rock());
    }
    map
}

/// Whether `room` touches one of `rooms`.
pub fn intersects_any(room: &Rect, rooms: &Vec<Rect>) -> (b: bool)
    ensures
        b == exists|i: int|
            0 <= i < rooms.len() && room.spec_intersects_with(#[trigger] rooms[i]),
{
    let mut i: usize = 0;
    while i < rooms.len()
        invariant
            i <= rooms.len(),
            forall|j: int| 0 <= j < i ==> !room.spec_intersects_with(#[trigger] rooms[j]),
        decreases rooms.len() - i,
    {
        if room.intersects_with(&rooms[i]) {
            return true;
        }
        i += 1;
    }
    false
}

/// Carves a corridor with one bend from `from` to `to`; which of the two
/// is drawn at random.
pub fn connect(from: (i32, i32), to: (i32, i32), map: &mut TileMap) -> (horizontal_first: bool)
    requires
        grid_ok(tiles(old(map)@)),
        on_grid(from.0 as int, from.1 as int),
        on_grid(to.0 as int, to.1 as int),
    ensures
        carves(
            tiles(old(map)@),
            tiles(final(map)@),
            |x: int, y: int|
                on_corridor(
                    (from.0 as int, from.1 as int),
                    (to.0 as int, to.1 as int),
                    horizontal_first,
                    x,
                    y,
                ),
        ),
{
    let horizontal_first = random_bool();
    if horizontal_first {
        create_h_tunnel(from.0, to.0, from.1, map);
        create_v_tunnel(from.1, to.1, to.0, map);
    } else {
        create_v_tunnel(from.1, to.1, from.0, map);
        create_h_tunnel(from.0, to.0, to.1, map);
    }
    horizontal_first
}

proof fn lemma_center_inside(room: Rect)
    requires
        room_ok(room),
    ensures
        room.holds(room.spec_center().0, room.spec_center().1),
        on_grid(room.spec_center().0, room.spec_center().1),
{
}

proof fn lemma_add_room(
    before: Seq<Seq<Tile>>,
    after: Seq<Seq<Tile>>,
    rooms: Seq<Rect>,
    room: Rect,
    horizontal_first: bool,
)
    requires
        laid_out(before, rooms),
        room_ok(room),
        forall|i: int| 0 <= i < rooms.len() ==> !room.spec_intersects_with(#[trigger] rooms[i]),
        grid_ok(after),
        forall|x: int, y: int|
            on_grid(x, y) ==> #[trigger] after[x][y] == if room.holds(x, y) || (rooms.len() > 0
                && on_corridor(
                rooms.last().spec_center(),
                room.spec_center(),
                horizontal_first,
                x,
                y,
            )) {
                floor()
            } else {
                before[x][y]
            },
    ensures
        laid_out(after, rooms.push(room)),
{
    let grown = rooms.push(room);
    assert forall|i: int| 0 <= i < grown.len() implies room_ok(#[trigger] grown[i]) by {
        if i < rooms.len() {
            assert(grown[i] == rooms[i]);
        }
    }
    assert forall|i: int, j: int| 0 <= i < j < grown.len() implies !(
    #[trigger] grown[i]).spec_intersects_with(#[trigger] grown[j]) by {
        assert(grown[i] == rooms[i]);
        if j < rooms.len() {
            assert(grown[j] == rooms[j]);
        }
    }
    assert forall|x: int, y: int| on_grid(x, y) && in_some_room(grown, x, y) implies
        #[trigger] after[x][y] == floor() by {
        let i = choose|i: int| 0 <= i < grown.len() && (#[trigger] grown[i]).holds(x, y);
        if i < rooms.len() {
            assert(rooms[i].holds(x, y));
            assert(in_some_room(rooms, x, y));
            assert(before[x][y] == floor());
        }
    }
    assert forall|i: int| 0 < i < grown.len() implies linked(
        after,
        grown[i - 1],
        #[trigger] grown[i],
    ) by {
        if i < rooms.len() {
            assert(grown[i] == rooms[i]);
            assert(grown[i - 1] == rooms[i - 1]);
            assert(linked(before, rooms[i - 1], rooms[i]));
            let hf = corridor_open(
                before,
                rooms[i - 1].spec_center(),
                rooms[i].spec_center(),
                true,
            );
            assert forall|x: int, y: int|
                on_grid(x, y) && on_corridor(
                    rooms[i - 1].spec_center(),
                    rooms[i].spec_center(),
                    hf,
                    x,
                    y,
                ) implies #[trigger] after[x][y] == floor() by {
                assert(before[x][y] == floor());
            }
        } else {
            assert(grown[i - 1] == rooms.last());
            assert(corridor_open(
                after,
                rooms.last().spec_center(),
                room.spec_center(),
                horizontal_first,
            ));
        }
    }
    assert forall|x: int, y: int| on_grid(x, y) implies #[trigger] after[x][y] == floor()
        || after[x][y] == rock() by {
        assert(before[x][y] == floor() || before[x][y] == rock());
    }
    assert forall|x: int, y: int| on_grid(x, y) && #[trigger] after[x][y] == floor() implies
        in_some_room(grown, x, y) || on_some_link(grown, x, y) by {
        if room.holds(x, y) {
            assert(grown[rooms.len() as int].holds(x, y));
        } else if rooms.len() > 0 && on_corridor(
            rooms.last().spec_center(),
            room.spec_center(),
            horizontal_first,
            x,
            y,
        ) {
            let i = rooms.len() as int;
            assert(grown[i - 1] == rooms.last());
            assert(between(grown, i, x, y));
        } else {
            assert(before[x][y] == floor());
            if in_some_room(rooms, x, y) {
                let i = choose|i: int| 0 <= i < rooms.len() && (#[trigger] rooms[i]).holds(x, y);
                assert(grown[i].holds(x, y));
            } else {
                let i = choose|i: int| 0 < i < rooms.len() && #[trigger] between(rooms, i, x, y);
                assert(grown[i] == rooms[i]);
                assert(grown[i - 1] == rooms[i - 1]);
                assert(between(grown, i, x, y));
            }
        }
    }
}

proof fn lemma_settle(
    first: Entity,
    before: Seq<Entity>,
    after: Seq<Entity>,
    rooms: Seq<Rect>,
    room: Rect,
    map: Seq<Seq<Tile>>,
    level: u32,
)
    requires
        peopled(first, before, rooms, level),
        populated(before, after, room, map, level),
        room_ok(room),
    ensures
        peopled(
            first,
            if rooms.len() == 0 {
                after.update(0, at_center(first, room))
            } else {
                after
            },
            rooms.push(room),
            level,
        ),
{
    let grown = rooms.push(room);
    let moved = if rooms.len() == 0 {
        after.update(0, at_center(first, room))
    } else {
        after
    };
    lemma_populated(before, after, room, map, level);
    assert(after.take(before.len() as int)[0] == after[0]);
    assert(grown[0] == if rooms.len() == 0 {
        room
    } else {
        rooms[0]
    });
    assert forall|k: int| 1 <= k < moved.len() implies settled(
        #[trigger] moved[k],
        grown,
        level,
    ) by {
        if k < before.len() {
            assert(after.take(before.len() as int)[k] == after[k]);
            assert(settled(before[k], rooms, level));
            let i = choose|i: int|
                0 <= i < rooms.len() && (#[trigger] rooms[i]).holds(
                    before[k].x as int,
                    before[k].y as int,
                );
            assert(grown[i].holds(moved[k].x as int, moved[k].y as int));
        } else {
            assert(placed_in(after[k], after.take(k), room, map, level));
            assert(grown[rooms.len() as int].holds(moved[k].x as int, moved[k].y as int));
        }
    }
    assert forall|j: int, k: int| 1 <= j < k < moved.len() implies !is_at(
        #[trigger] moved[j],
        (#[trigger] moved[k]).x as int,
        moved[k].y as int,
    ) by {
        if k < before.len() {
            assert(after.take(before.len() as int)[k] == after[k]);
            assert(after.take(before.len() as int)[j] == after[j]);
        } else {
            assert(placed_in(after[k], after.take(k), room, map, level));
            assert(after.take(k)[j] == after[j]);
        }
    }
}

fn add_room(
    new_room: Rect,
    map: &mut TileMap,
    objects: &mut Vec<GameObject>,
    rooms: &mut Vec<Rect>,
    level: u32,
    Ghost(first): Ghost<Entity>,
)
    requires
        laid_out(tiles(old(map)@), old(rooms)@),
        peopled(first, entities(old(objects)@), old(rooms)@, level),
        room_ok(new_room),
        forall|i: int|
            0 <= i < old(rooms).len() ==> !new_room.spec_intersects_with(#[trigger] old(rooms)[i]),
    ensures
        final(rooms)@ == old(rooms)@.push(new_room),
        laid_out(tiles(final(map)@), final(rooms)@),
        peopled(first, entities(final(objects)@), final(rooms)@, level),
{
    let ghost untouched = tiles(map@);
    let ghost objects0 = entities(objects@);
    create_room(new_room, map);
    let ghost with_room = tiles(map@);
    place_objects(new_room, map, objects, level);
    let ghost objects1 = entities(objects@);
    let center = new_room.center();
    proof {
        lemma_center_inside(new_room);
        lemma_settle(first, objects0, objects1, rooms@, new_room, with_room, level);
    }
    let mut horizontal_first = true;
    if rooms.len() == 0 {
        objects[PLAYER].set_pos(center.0, center.1);
        assert(entities(objects@) =~= objects1.update(0, at_center(first, new_room)));
    } else {
        let previous = rooms[rooms.len() - 1].center();
        proof {
            lemma_center_inside(rooms@.last());
        }
        horizontal_first = connect(previous, center, map);
    }
    proof {
        let with_corridor = tiles(map@);
        assert forall|x: int, y: int| on_grid(x, y) implies #[trigger] with_corridor[x][y]
            == if new_room.holds(x, y) || (rooms.len() > 0 && on_corridor(
            rooms@.last().spec_center(),
            new_room.spec_center(),
            horizontal_first,
            x,
            y,
        )) {
            floor()
        } else {
            untouched[x][y]
        } by {
            assert(with_room[x][y] == if new_room.holds(x, y) {
                floor()
            } else {
                untouched[x][y]
            });
        }
        lemma_add_room(untouched, with_corridor, rooms@, new_room, horizontal_first);
    }
    rooms.push(new_room);
}

/// Whether `objects` are what generation leaves: the player and the
/// population of the rooms, and after them the stairs down at the center of
/// the last room.
pub open spec fn arranged(
    first: Entity,
    objects: Seq<Entity>,
    rooms: Seq<Rect>,
    level: u32,
) -> bool {
    &&& objects.len() >= 2
    &&& rooms.len() >= 1
    &&& peopled(first, objects.drop_last(), rooms, level)
    &&& objects.last() == stairs(
        rooms.last().spec_center().0 as i32,
        rooms.last().spec_center().1 as i32,
    )
}

/// Builds a dungeon for `level` and says which rooms it has. Every object
/// but the first, the player, is dropped. A fixed number of rooms is
/// drawn at random; one that touches a room already there is passed over,
/// each other one is carved, populated and joined to the room before it.
/// The player is put at the center of the first room and the stairs down at
/// the center of the last.
pub fn create_map_with_rooms(objects: &mut Vec<GameObject>, level: u32) -> (result: (
    TileMap,
    Vec<Rect>,
))
    requires
        old(objects).len() >= 1,
    ensures
        1 <= result.1.len() <= MAX_ROOMS,
        laid_out(tiles(result.0@), result.1@),
        arranged(old(objects)[0]@, entities(final(objects)@), result.1@, level),
{
    let ghost first = objects[0]@;
    let mut map = rock_grid();
    let mut rooms: Vec<Rect> = Vec::new();
    objects.truncate(1);
    assert(entities(objects@)[0] == first);
    let mut attempt: i32 = 0;
    while attempt < MAX_ROOMS
        invariant
            0 <= attempt <= MAX_ROOMS,
            rooms.len() <= attempt,
            attempt > 0 ==> rooms.len() > 0,
            laid_out(tiles(map@), rooms@),
            peopled(first, entities(objects@), rooms@, level),
        decreases MAX_ROOMS - attempt,
    {
        let w: i32 = random_in_range(ROOM_MIN_SIZE, ROOM_MAX_SIZE + 1);
        let h: i32 = random_in_range(ROOM_MIN_SIZE, ROOM_MAX_SIZE + 1);
        let x: i32 = random_in_range(0, MAP_WIDTH - w);
        let y: i32 = random_in_range(0, MAP_HEIGHT - h);
        let new_room = Rect::new(x, y, w, h);
        if !intersects_any(&new_room, &rooms) {
            add_room(new_room, &mut map, objects, &mut rooms, level, Ghost(first));
        }
        attempt += 1;
    }
    let last = rooms[rooms.len() - 1].center();
    let mut stairs_down = GameObject::new(last.0, last.1, '<', "stairs", white(), false);
    stairs_down.always_visible = true;
    let ghost peopled_objects = entities(objects@);
    objects.push(stairs_down);
    assert(entities(objects@).drop_last() =~= peopled_objects);
    (map, rooms)
}

/// Builds a dungeon for `level`: see [`create_map_with_rooms`], which also
/// returns the rooms.
pub fn create_map(objects: &mut Vec<GameObject>, level: u32) -> (map: TileMap)
    requires
        old(objects).len() >= 1,
    ensures
        exists|rooms: Seq<Rect>|
            1 <= rooms.len() <= MAX_ROOMS && #[trigger] laid_out(tiles(map@), rooms) && arranged(
                old(objects)[0]@,
                entities(final(objects)@),
                rooms,
                level,
            ),
{
    let (map, rooms) = create_map_with_rooms(objects, level);
    map
}

/// In a generated dungeon the inside of every room can be walked, no two
/// rooms touch, a floor cell is never on the edge of the grid, and the
/// player stands inside the first room.
pub proof fn lemma_generated_dungeon(
    map: Seq<Seq<Tile>>,
    rooms: Seq<Rect>,
    first: Entity,
    objects: Seq<Entity>,
    level: u32,
)
    requires
        laid_out(map, rooms),
        arranged(first, objects, rooms, level),
    ensures
        forall|i: int, x: int, y: int|
            0 <= i < rooms.len() && (#[trigger] rooms[i]).holds(x, y) ==> on_grid(x, y) && !(
            #[trigger] map[x][y]).blocked,
        forall|i: int, j: int|
            0 <= i < rooms.len() && 0 <= j < rooms.len() && i != j ==> !(
            #[trigger] rooms[i]).spec_intersects_with(#[trigger] rooms[j]),
        rooms[0].holds(objects[0].x as int, objects[0].y as int),
        forall|x: int, y: int|
            on_grid(x, y) && !(#[trigger] map[x][y]).blocked ==> 0 < x < MAP_WIDTH - 1 && 0 < y
                < MAP_HEIGHT - 1,
{
    assert forall|x: int, y: int| on_grid(x, y) && !(#[trigger] map[x][y]).blocked implies 0 < x
        < MAP_WIDTH - 1 && 0 < y < MAP_HEIGHT - 1 by {
        assert(map[x][y] == floor() || map[x][y] == rock());
        if in_some_room(rooms, x, y) {
            let i = choose|i: int| 0 <= i < rooms.len() && (#[trigger] rooms[i]).holds(x, y);
            assert(room_ok(rooms[i]));
        } else {
            let i = choose|i: int| 0 < i < rooms.len() && #[trigger] between(rooms, i, x, y);
            assert(room_ok(rooms[i]));
            assert(room_ok(rooms[i - 1]));
            lemma_center_inside(rooms[i]);
            lemma_center_inside(rooms[i - 1]);
        }
    }
    assert forall|i: int, x: int, y: int|
        0 <= i < rooms.len() && (#[trigger] rooms[i]).holds(x, y) implies on_grid(x, y) && !(
    #[trigger] map[x][y]).blocked by {
        assert(room_ok(rooms[i]));
        assert(in_some_room(rooms, x, y));
    }
    assert forall|i: int, j: int|
        0 <= i < rooms.len() && 0 <= j < rooms.len() && i != j implies !(
    #[trigger] rooms[i]).spec_intersects_with(#[trigger] rooms[j]) by {
        if i < j {
            assert(!rooms[i].spec_intersects_with(rooms[j]));
        } else {
            assert(!rooms[j].spec_intersects_with(rooms[i]));
        }
    }
    assert(room_ok(rooms[0]));
    lemma_center_inside(rooms[0]);
    assert(objects.drop_last()[0] == objects[0]);
}

} // verus!
