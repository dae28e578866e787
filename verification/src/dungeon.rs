//! The dungeon: rooms, corridors, the table that scales with depth, and
//! what blocks a cell.

use vstd::prelude::*;
use crate::constants::{MAP_HEIGHT, MAP_WIDTH};
use crate::entity::{Entity, GameObject, TileMap, entities, tiles};
use crate::tile::Tile;

verus! {

/// A rectangle of cells, by two opposite corners.
#[derive(Clone, Copy, Debug, PartialEq, Eq, Structural)]
pub struct Rect {
    pub x1: i32,
    pub y1: i32,
    pub x2: i32,
    pub y2: i32,
}

/// Half of `n`, rounded towards zero.
pub open spec fn half(n: int) -> int {
    if n >= 0 {
        n / 2
    } else {
        -((-n) / 2)
    }
}

impl Rect {
    /// The cell in the middle of the rectangle.
    pub open spec fn spec_center(self) -> (int, int) {
        (half(self.x1 + self.x2), half(self.y1 + self.y2))
    }

    /// Whether the two rectangles share a cell, borders included.
    pub open spec fn spec_intersects_with(self, other: Rect) -> bool {
        self.x1 <= other.x2 && self.x2 >= other.x1 && self.y1 <= other.y2 && self.y2 >= other.y1
    }

    /// Whether `(x, y)` lies inside the rectangle and off its border.
    pub open spec fn holds(self, x: int, y: int) -> bool {
        self.x1 < x < self.x2 && self.y1 < y < self.y2
    }

    /// Whether the rectangle, border included, lies on the grid.
    pub open spec fn on_grid(self) -> bool {
        0 <= self.x1 <= self.x2 < MAP_WIDTH && 0 <= self.y1 <= self.y2 < MAP_HEIGHT
    }

    /// The rectangle with the corner `(x, y)`, `w` cells wide and `h` high.
    pub fn new(x: i32, y: i32, w: i32, h: i32) -> (r: Rect)
        requires
            i32::MIN <= x + w <= i32::MAX,
            i32::MIN <= y + h <= i32::MAX,
        ensures
            r == (Rect { x1: x, y1: y, x2: (x + w) as i32, y2: (y + h) as i32 }),
    {
        Rect { x1: x, y1: y, x2: x + w, y2: y + h }
    }

    /// The cell in the middle of the rectangle.
    pub fn center(&self) -> (c: (i32, i32))
        ensures
            (c.0 as int, c.1 as int) == self.spec_center(),
    {
        let sum_x: i64 = self.x1 as i64 + self.x2 as i64;
        let sum_y: i64 = self.y1 as i64 + self.y2 as i64;
        let center_x: i64 = if sum_x >= 0 {
            sum_x / 2
        } else {
            -((-sum_x) / 2)
        };
        let center_y: i64 = if sum_y >= 0 {
            sum_y / 2
        } else {
            -((-sum_y) / 2)
        };
        (center_x as i32, center_y as i32)
    }

    /// Whether the two rectangles share a cell, borders included.
    pub fn intersects_with(&self, other: &Rect) -> (b: bool)
        ensures
            b == self.spec_intersects_with(*other),
    {
        (self.x1 <= other.x2) && (self.x2 >= other.x1) && (self.y1 <= other.y2) && (self.y2
            >= other.y1)
    }
}

/// One step of a table that scales with depth: from `level` on, the value
/// is `value`.
#[derive(Clone, Copy, Debug, PartialEq, Eq, Structural)]
pub struct Transition {
    pub level: u32,
    pub value: u32,
}

impl Transition {
    /// The step that gives `value` from `level` on.
    pub fn new(level: u32, value: u32) -> (t: Transition)
        ensures
            t == (Transition { level, value }),
    {
        Transition { level, value }
    }
}

/// The value of a table at `level`: that of the last step whose level is
/// reached, and zero where none is.
pub open spec fn step_value(table: Seq<Transition>, level: u32) -> u32
    decreases table.len(),
{
    if table.len() == 0 {
        0
    } else if level >= table.last().level {
        table.last().value
    } else {
        step_value(table.drop_last(), level)
    }
}

/// The value of a table at `level`.
pub fn from_dungeon_level(table: &[Transition], level: u32) -> (value: u32)
    ensures
        value == step_value(table@, level),
{
    let mut i: usize = table.len();
    assert(table@.take(i as int) =~= table@);
    while i > 0
        invariant
            i <= table.len(),
            step_value(table@, level) == step_value(table@.take(i as int), level),
        decreases i,
    {
        assert(table@.take(i as int).drop_last() =~= table@.take(i - 1));
        assert(table@.take(i as int).last() == table@[i - 1]);
        if level >= table[i - 1].level {
            return table[i - 1].value;
        }
        i -= 1;
    }
    assert(table@.take(0).len() == 0);
    0
}

/// Whether a grid has the dimensions of the dungeon.
pub open spec fn grid_ok(map: Seq<Seq<Tile>>) -> bool {
    &&& map.len() == MAP_WIDTH
    &&& forall|x: int| 0 <= x < MAP_WIDTH ==> (#[trigger] map[x]).len() == MAP_HEIGHT
}

/// Whether `(x, y)` is a cell of the grid.
pub open spec fn on_grid(x: int, y: int) -> bool {
    0 <= x < MAP_WIDTH && 0 <= y < MAP_HEIGHT
}

/// Whether a blocking entity stands on `(x, y)`.
pub open spec fn occupied(objects: Seq<Entity>, x: int, y: int) -> bool {
    exists|i: int| 0 <= i < objects.len() && stands_in_the_way(#[trigger] objects[i], x, y)
}

/// Whether the entity blocks and stands on `(x, y)`.
pub open spec fn stands_in_the_way(e: Entity, x: int, y: int) -> bool {
    e.blocks && e.x == x && e.y == y
}

/// Whether `(x, y)` cannot be entered: its tile is blocked or a blocking
/// entity stands on it.
pub open spec fn blocked(map: Seq<Seq<Tile>>, objects: Seq<Entity>, x: int, y: int) -> bool {
    map[x][y].blocked || occupied(objects, x, y)
}

/// Whether `(x, y)` cannot be entered.
pub fn is_blocked(x: i32, y: i32, map: &TileMap, objects: &Vec<GameObject>) -> (b: bool)
    requires
        grid_ok(tiles(map@)),
        on_grid(x as int, y as int),
    ensures
        b == blocked(tiles(map@), entities(objects@), x as int, y as int),
{
    assert(tiles(map@)[x as int] == map@[x as int]@);
    if map[x as usize][y as usize].blocked {
        return true;
    }
    let mut i: usize = 0;
    while i < objects.len()
        invariant
            i <= objects.len(),
            forall|j: int|
                0 <= j < i
                    ==> !stands_in_the_way(#[trigger] entities(objects@)[j], x as int, y as int),
        decreases objects.len() - i,
    {
        assert(entities(objects@)[i as int] == objects[i as int]@);
        if objects[i].blocks && objects[i].x == x && objects[i].y == y {
            return true;
        }
        i += 1;
    }
    false
}

/// The tile of a carved cell.
pub open spec fn floor() -> Tile {
    Tile { blocked: false, block_sight: false, explored: false }
}

/// Whether `after` is `before` with the cells of `region` carved out:
/// those are floor, and every other cell is as it was.
pub open spec fn carves(
    before: Seq<Seq<Tile>>,
    after: Seq<Seq<Tile>>,
    region: spec_fn(int, int) -> bool,
) -> bool {
    &&& grid_ok(after)
    &&& forall|x: int, y: int|
        on_grid(x, y) ==> #[trigger] after[x][y] == if region(x, y) {
            floor()
        } else {
            before[x][y]
        }
}

/// Whether `(x, y)` lies on the horizontal corridor in row `row` between
/// the columns `x1` and `x2`, in either order, ends included.
pub open spec fn on_h_tunnel(x1: int, x2: int, row: int, x: int, y: int) -> bool {
    y == row && (x1 <= x <= x2 || x2 <= x <= x1)
}

/// Whether `(x, y)` lies on the vertical corridor in column `column`
/// between the rows `y1` and `y2`, in either order, ends included.
pub open spec fn on_v_tunnel(y1: int, y2: int, column: int, x: int, y: int) -> bool {
    x == column && (y1 <= y <= y2 || y2 <= y <= y1)
}

fn carve_cell(x: usize, y: usize, map: &mut TileMap)
    requires
        grid_ok(tiles(old(map)@)),
        on_grid(x as int, y as int),
    ensures
        carves(tiles(old(map)@), tiles(final(map)@), |cx: int, cy: int| cx == x && cy == y),
{
    assert(tiles(map@)[x as int] == map@[x as int]@);
    map[x][y] = Tile::empty();
    assert forall|cx: int| 0 <= cx < MAP_WIDTH implies (#[trigger] tiles(map@)[cx]).len()
        == MAP_HEIGHT by {
        assert(tiles(old(map)@)[cx].len() == MAP_HEIGHT);
    }
}

/// Carves the inside of `room`, its border left standing.
pub fn create_room(room: Rect, map: &mut TileMap)
    requires
        grid_ok(tiles(old(map)@)),
        room.on_grid(),
    ensures
        carves(tiles(old(map)@), tiles(final(map)@), |x: int, y: int| room.holds(x, y)),
{
    if room.x2 - room.x1 < 2 || room.y2 - room.y1 < 2 {
        return;
    }
    let mut x: i32 = room.x1 + 1;
    while x < room.x2
        invariant
            room.on_grid(),
            room.x1 < x <= room.x2,
            room.y2 - room.y1 >= 2,
            carves(
                tiles(old(map)@),
                tiles(map@),
                |cx: int, cy: int| room.holds(cx, cy) && cx < x,
            ),
        decreases room.x2 - x,
    {
        let mut y: i32 = room.y1 + 1;
        while y < room.y2
            invariant
                room.on_grid(),
                room.x1 < x < room.x2,
                room.y1 < y <= room.y2,
                carves(
                    tiles(old(map)@),
                    tiles(map@),
                    |cx: int, cy: int| room.holds(cx, cy) && (cx < x || (cx == x && cy < y)),
                ),
            decreases room.y2 - y,
        {
            carve_cell(x as usize, y as usize, map);
            y += 1;
        }
        x += 1;
    }
}

/// Carves the cells of row `y` between the columns `x1` and `x2`.
pub fn create_h_tunnel(x1: i32, x2: i32, y: i32, map: &mut TileMap)
    requires
        grid_ok(tiles(old(map)@)),
        on_grid(x1 as int, y as int),
        on_grid(x2 as int, y as int),
    ensures
        carves(
            tiles(old(map)@),
            tiles(final(map)@),
            |cx: int, cy: int| on_h_tunnel(x1 as int, x2 as int, y as int, cx, cy),
        ),
{
    let low: i32 = if x1 <= x2 { x1 } else { x2 };
    let high: i32 = if x1 <= x2 { x2 } else { x1 };
    let mut x: i32 = low;
    while x <= high
        invariant
            on_grid(low as int, y as int),
            on_grid(high as int, y as int),
            low <= x <= high + 1,
            low == if x1 <= x2 { x1 } else { x2 },
            high == if x1 <= x2 { x2 } else { x1 },
            carves(
                tiles(old(map)@),
                tiles(map@),
                |cx: int, cy: int| on_h_tunnel(x1 as int, x2 as int, y as int, cx, cy) && cx < x,
            ),
        decreases high + 1 - x,
    {
        carve_cell(x as usize, y as usize, map);
        x += 1;
    }
}

/// Carves the cells of column `x` between the rows `y1` and `y2`.
pub fn create_v_tunnel(y1: i32, y2: i32, x: i32, map: &mut TileMap)
    requires
        grid_ok(tiles(old(map)@)),
        on_grid(x as int, y1 as int),
        on_grid(x as int, y2 as int),
    ensures
        carves(
            tiles(old(map)@),
            tiles(final(map)@),
            |cx: int, cy: int| on_v_tunnel(y1 as int, y2 as int, x as int, cx, cy),
        ),
{
    let low: i32 = if y1 <= y2 { y1 } else { y2 };
    let high: i32 = if y1 <= y2 { y2 } else { y1 };
    let mut y: i32 = low;
    while y <= high
        invariant
            on_grid(x as int, low as int),
            on_grid(x as int, high as int),
            low <= y <= high + 1,
            low == if y1 <= y2 { y1 } else { y2 },
            high == if y1 <= y2 { y2 } else { y1 },
            carves(
                tiles(old(map)@),
                tiles(map@),
                |cx: int, cy: int| on_v_tunnel(y1 as int, y2 as int, x as int, cx, cy) && cy < y,
            ),
        decreases high + 1 - y,
    {
        carve_cell(x as usize, y as usize, map);
        y += 1;
    }
}

/// Whether a grid has the dimensions of the dungeon.
pub fn grid_is_whole(map: &TileMap) -> (whole: bool)
    ensures
        whole == grid_ok(tiles(map@)),
{
    if map.len() != MAP_WIDTH as usize {
        return false;
    }
    let mut x: usize = 0;
    while x < map.len()
        invariant
            x <= map.len(),
            map.len() == MAP_WIDTH,
            forall|cx: int| 0 <= cx < x ==> (#[trigger] tiles(map@)[cx]).len() == MAP_HEIGHT,
        decreases map.len() - x,
    {
        assert(tiles(map@)[x as int] == map@[x as int]@);
        if map[x].len() != MAP_HEIGHT as usize {
            return false;
        }
        x += 1;
    }
    true
}

} // verus!
