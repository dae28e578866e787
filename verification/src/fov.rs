//! What the player sees: the cells in the field of view, as they were last
//! computed.

use vstd::prelude::*;

verus! {

/// The cells in the field of view, by column and row.
#[derive(Debug)]
pub struct FovMap {
    pub visible: Vec<Vec<bool>>,
}

impl FovMap {
    /// Whether `(x, y)` is a cell that is seen. A cell that the map does
    /// not hold is not seen.
    pub open spec fn sees(&self, x: int, y: int) -> bool {
        &&& 0 <= x < self.visible.len()
        &&& 0 <= y < self.visible[x].len()
        &&& self.visible[x][y]
    }

    /// A map of `width` columns and `height` rows on which nothing is seen.
    pub fn new(width: usize, height: usize) -> (fov: FovMap)
        ensures
            fov.visible.len() == width,
            forall|x: int| 0 <= x < width ==> (#[trigger] fov.visible[x]).len() == height,
            forall|x: int, y: int| !fov.sees(x, y),
    {
        let mut visible: Vec<Vec<bool>> = Vec::new();
        let mut x: usize = 0;
        while x < width
            invariant
                x <= width,
                visible.len() == x,
                forall|cx: int| 0 <= cx < x ==> (#[trigger] visible[cx]).len() == height,
                forall|cx: int, cy: int|
                    0 <= cx < x && 0 <= cy < height ==> !(#[trigger] visible[cx][cy]),
            decreases width - x,
        {
            let mut column: Vec<bool> = Vec::new();
            let mut y: usize = 0;
            while y < height
                invariant
                    y <= height,
                    column.len() == y,
                    forall|cy: int| 0 <= cy < y ==> !(#[trigger] column[cy]),
                decreases height - y,
            {
                column.push(false);
                y += 1;
            }
            visible.push(column);
            x += 1;
        }
        FovMap { visible }
    }

    /// Marks the cell `(x, y)` as seen or not seen. A cell that the map does
    /// not hold is left out.
    pub fn set(&mut self, x: i32, y: i32, seen: bool)
        ensures
            final(self).visible.len() == old(self).visible.len(),
            forall|cx: int|
                0 <= cx < old(self).visible.len() ==> (#[trigger] final(self).visible[cx]).len()
                    == old(self).visible[cx].len(),
            forall|cx: int, cy: int|
                final(self).sees(cx, cy) == if cx == x && cy == y && 0 <= cx < old(
                    self,
                ).visible.len() && 0 <= cy < old(self).visible[cx].len() {
                    seen
                } else {
                    old(self).sees(cx, cy)
                },
    {
        if x >= 0 && y >= 0 && (x as usize) < self.visible.len() {
            if (y as usize) < self.visible[x as usize].len() {
                self.visible[x as usize][y as usize] = seen;
            }
        }
    }

    /// Whether `(x, y)` is a cell that is seen.
    pub fn is_in_fov(&self, x: i32, y: i32) -> (seen: bool)
        ensures
            seen == self.sees(x as int, y as int),
    {
        if x < 0 || y < 0 || x as usize >= self.visible.len() {
            return false;
        }
        if y as usize >= self.visible[x as usize].len() {
            return false;
        }
        self.visible[x as usize][y as usize]
    }
}

} // verus!
