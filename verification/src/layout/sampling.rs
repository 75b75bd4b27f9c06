//! Where candidate poses come from. A scene takes any list of poses; this module
//! makes the list of a regular grid.

use crate::layout::placement::Pose2D;
use crate::models::rect::Rect;
use vstd::prelude::*;

verus! {

/// The poses of a regular grid: in every `step`-th column and every `step`-th row of
/// `area`, starting at its lowest corner, each with `turns` different numbers of
/// quarter turns. A grid with step 0 has no pose.
#[derive(Debug, Clone, Copy, PartialEq, Eq, Structural)]
pub struct PoseGrid {
    pub area: Rect,
    pub step: u32,
    pub turns: u32,
}

impl PoseGrid {
    /// The poses of one row with `theta` quarter turns, from column `x` on.
    pub open spec fn row_from(self, x: int, y: i32, theta: u32) -> Seq<Pose2D>
        decreases
            if self.area.max_x > x {
                self.area.max_x - x
            } else {
                0
            },
    {
        if self.step == 0 || x >= self.area.max_x || x < self.area.min_x {
            Seq::empty()
        } else {
            seq![Pose2D { x: x as i32, y, theta }] + self.row_from(x + self.step, y, theta)
        }
    }

    /// The poses with `theta` quarter turns, from row `y` on, row after row.
    pub open spec fn rows_from(self, y: int, theta: u32) -> Seq<Pose2D>
        decreases
            if self.area.max_y > y {
                self.area.max_y - y
            } else {
                0
            },
    {
        if self.step == 0 || y >= self.area.max_y || y < self.area.min_y {
            Seq::empty()
        } else {
            self.row_from(self.area.min_x as int, y as i32, theta) + self.rows_from(
                y + self.step,
                theta,
            )
        }
    }

    /// The poses with `theta` or more quarter turns, fewer turns first.
    pub open spec fn turns_from(self, theta: int) -> Seq<Pose2D>
        decreases self.turns - theta,
    {
        if theta < 0 || theta >= self.turns {
            Seq::empty()
        } else {
            self.rows_from(self.area.min_y as int, theta as u32) + self.turns_from(theta + 1)
        }
    }

    /// All poses of the grid: ordered by quarter turns, then by row, then by column.
    pub open spec fn spec_poses(self) -> Seq<Pose2D> {
        self.turns_from(0)
    }

    /// Every pose of a row stands in the area, in that row, with the row's turns.
    pub proof fn lemma_row_in_area(self, x: int, y: i32, theta: u32, index: int)
        requires
            0 <= index < self.row_from(x, y, theta).len(),
        ensures
            self.area.min_x <= self.row_from(x, y, theta)[index].x < self.area.max_x,
            x <= self.row_from(x, y, theta)[index].x,
            self.row_from(x, y, theta)[index].y == y,
            self.row_from(x, y, theta)[index].theta == theta,
        decreases
            if self.area.max_x > x {
                self.area.max_x - x
            } else {
                0
            },
    {
        if index > 0 {
            self.lemma_row_in_area(x + self.step, y, theta, index - 1);
        }
    }

    /// Every pose of the rows stands in the area, with the rows' turns.
    pub proof fn lemma_rows_in_area(self, y: int, theta: u32, index: int)
        requires
            0 <= index < self.rows_from(y, theta).len(),
        ensures
            self.area.covers_cell(
                self.rows_from(y, theta)[index].x as int,
                self.rows_from(y, theta)[index].y as int,
            ),
            self.rows_from(y, theta)[index].theta == theta,
        decreases
            if self.area.max_y > y {
                self.area.max_y - y
            } else {
                0
            },
    {
        let row = self.row_from(self.area.min_x as int, y as i32, theta);
        if index < row.len() {
            self.lemma_row_in_area(self.area.min_x as int, y as i32, theta, index);
        } else {
            self.lemma_rows_in_area(y + self.step, theta, index - row.len());
        }
    }

    /// Every pose of the grid stands on a cell of the area and has fewer than `turns`
    /// quarter turns.
    pub proof fn lemma_poses_in_area(self, theta: int, index: int)
        requires
            0 <= theta,
            0 <= index < self.turns_from(theta).len(),
        ensures
            self.area.covers_cell(
                self.turns_from(theta)[index].x as int,
                self.turns_from(theta)[index].y as int,
            ),
            theta <= self.turns_from(theta)[index].theta < self.turns,
        decreases self.turns - theta,
    {
        let rows = self.rows_from(self.area.min_y as int, theta as u32);
        if index < rows.len() {
            self.lemma_rows_in_area(self.area.min_y as int, theta as u32, index);
        } else {
            self.lemma_poses_in_area(theta + 1, index - rows.len());
        }
    }

    /// All poses of the grid, ordered by quarter turns, then by row, then by column.
    pub fn poses(&self) -> (poses: Vec<Pose2D>)
        ensures
            poses@ == self.spec_poses(),
    {
        let mut poses: Vec<Pose2D> = Vec::new();
        if self.step == 0 {
            assert(self.turns_from(0) =~= Seq::<Pose2D>::empty()) by {
                self.lemma_no_step(0);
            }
            return poses;
        }
        let mut theta: u32 = 0;
        while theta < self.turns
            invariant
                self.step > 0,
                theta <= self.turns,
                self.spec_poses() == poses@ + self.turns_from(theta as int),
            decreases self.turns - theta,
        {
            let ghost turned = poses@;
            let mut y: i64 = self.area.min_y as i64;
            while y < self.area.max_y as i64
                invariant
                    self.step > 0,
                    theta < self.turns,
                    self.area.min_y <= y,
                    y < i32::MAX + self.step,
                    self.spec_poses() == turned + self.rows_from(
                        self.area.min_y as int,
                        theta,
                    ) + self.turns_from(theta + 1),
                    turned + self.rows_from(self.area.min_y as int, theta) == poses@
                        + self.rows_from(y as int, theta),
                decreases i32::MAX + self.step - y,
            {
                let ghost rowed = poses@;
                let mut x: i64 = self.area.min_x as i64;
                while x < self.area.max_x as i64
                    invariant
                        self.step > 0,
                        self.area.min_y <= y < self.area.max_y,
                        self.area.min_x <= x,
                        x < i32::MAX + self.step,
                        rowed + self.row_from(self.area.min_x as int, y as i32, theta) == poses@
                            + self.row_from(x as int, y as i32, theta),
                    decreases i32::MAX + self.step - x,
                {
                    let ghost before = poses@;
                    poses.push(Pose2D { x: x as i32, y: y as i32, theta });
                    assert(before + (seq![Pose2D { x: x as i32, y: y as i32, theta }]
                        + self.row_from(x + self.step, y as i32, theta)) =~= poses@
                        + self.row_from(x + self.step, y as i32, theta));
                    x = x + self.step as i64;
                }
                assert(poses@ + self.row_from(x as int, y as i32, theta) =~= poses@);
                assert(rowed + (self.row_from(self.area.min_x as int, y as i32, theta)
                    + self.rows_from(y + self.step, theta)) =~= poses@ + self.rows_from(
                    y + self.step,
                    theta,
                ));
                y = y + self.step as i64;
            }
            assert(poses@ + self.rows_from(y as int, theta) =~= poses@);
            assert(turned + (self.rows_from(self.area.min_y as int, theta) + self.turns_from(
                theta + 1,
            )) =~= poses@ + self.turns_from(theta + 1));
            theta += 1;
        }
        assert(poses@ + self.turns_from(theta as int) =~= poses@);
        poses
    }

    /// A grid with step 0 has no pose.
    pub proof fn lemma_no_step(self, theta: int)
        requires
            self.step == 0,
        ensures
            self.turns_from(theta).len() == 0,
        decreases self.turns - theta,
    {
        if 0 <= theta < self.turns {
            self.lemma_no_step(theta + 1);
        }
    }
}

} // verus!
