//! Axis-aligned boxes of grid cells.

use vstd::prelude::*;

verus! {

/// The cells `(x, y)` with `min_x <= x < max_x` and `min_y <= y < max_y`. A box whose
/// minimum is not below its maximum on either axis holds no cell.
#[derive(Debug, Clone, Copy, PartialEq, Eq, Structural)]
pub struct Rect {
    pub min_x: i32,
    pub min_y: i32,
    pub max_x: i32,
    pub max_y: i32,
}

impl Rect {
    /// Whether the box holds the cell `(x, y)`.
    pub open spec fn covers_cell(self, x: int, y: int) -> bool {
        self.min_x <= x < self.max_x && self.min_y <= y < self.max_y
    }

    /// Whether the two boxes share a cell.
    pub open spec fn overlaps(self, other: Rect) -> bool {
        exists|x: int, y: int| self.covers_cell(x, y) && other.covers_cell(x, y)
    }

    /// Whether every cell of this box is a cell of `outer`.
    pub open spec fn within(self, outer: Rect) -> bool {
        forall|x: int, y: int| self.covers_cell(x, y) ==> outer.covers_cell(x, y)
    }

    /// Whether the box holds no cell.
    pub open spec fn spec_is_empty(self) -> bool {
        self.min_x >= self.max_x || self.min_y >= self.max_y
    }

    /// Whether the box holds no cell.
    pub fn is_empty(&self) -> (empty: bool)
        ensures
            empty == self.spec_is_empty(),
            empty <==> forall|x: int, y: int| !self.covers_cell(x, y),
    {
        let empty = self.min_x >= self.max_x || self.min_y >= self.max_y;
        proof {
            if !empty {
                assert(self.covers_cell(self.min_x as int, self.min_y as int));
            }
        }
        empty
    }

    /// Whether the two boxes share a cell.
    pub fn intersects(&self, other: &Rect) -> (hit: bool)
        ensures
            hit == self.overlaps(*other),
    {
        let low_x: i32 = if self.min_x > other.min_x { self.min_x } else { other.min_x };
        let low_y: i32 = if self.min_y > other.min_y { self.min_y } else { other.min_y };
        let high_x: i32 = if self.max_x < other.max_x { self.max_x } else { other.max_x };
        let high_y: i32 = if self.max_y < other.max_y { self.max_y } else { other.max_y };
        let hit = low_x < high_x && low_y < high_y;
        proof {
            if hit {
                assert(self.covers_cell(low_x as int, low_y as int) && other.covers_cell(
                    low_x as int,
                    low_y as int,
                ));
            }
        }
        hit
    }

    /// Whether every cell of this box is a cell of `outer`. A box without cells fits
    /// anywhere.
    pub fn fits_in(&self, outer: &Rect) -> (fits: bool)
        ensures
            fits == self.within(*outer),
    {
        if self.is_empty() {
            return true;
        }
        let fits = outer.min_x <= self.min_x && self.max_x <= outer.max_x && outer.min_y
            <= self.min_y && self.max_y <= outer.max_y;
        proof {
            if self.within(*outer) {
                assert(self.covers_cell(self.min_x as int, self.min_y as int));
                assert(self.covers_cell(self.max_x - 1, self.max_y - 1));
            }
        }
        fits
    }
}

} // verus!
