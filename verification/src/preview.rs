//! What a build looks like before it is carried out.

use crate::buildable::{BuildMode, Buildable, BuildableType};
use crate::geometry::GridPosition;
use crate::grid_box::{cartesian_cells, greater, lesser, rect_cells, BoundingBox, GridBox};
use crate::line::{distance, line_seq};
use vstd::prelude::*;

verus! {

/// A build in the making: what is to be built, where the click began and
/// where the pointer is now.
#[derive(Clone, Copy, Debug, PartialEq, Eq, Structural)]
pub struct PreviewParent {
    /// What is to be built.
    pub previewed: Buildable,
    /// Where the click began.
    pub start_position: GridPosition,
    /// Where the pointer is now.
    pub current_position: GridPosition,
}

/// A build that the player has asked for.
#[derive(Clone, Copy, Debug, PartialEq, Eq, Structural)]
pub struct BuildRequest {
    /// The sort of the object, by which the build is carried out.
    pub sort: BuildableType,
    pub start_position: GridPosition,
    pub end_position: GridPosition,
    pub buildable: Buildable,
}

/// The cells of the rectangle between two positions on the level of the
/// first, column by column.
pub open spec fn rect_positions(start: GridPosition, current: GridPosition) -> Seq<GridPosition> {
    rect_cells(
        lesser(start.x as int, current.x as int),
        greater(start.x as int, current.x as int),
        lesser(start.y as int, current.y as int),
        greater(start.y as int, current.y as int),
    ).map_values(|cell: (i32, i32)| GridPosition { x: cell.0, y: cell.1, z: start.z })
}

/// The footprint of an object on the ground: its size, one level high.
pub open spec fn flat_footprint(previewed: Buildable) -> BoundingBox {
    BoundingBox { x: previewed.footprint().x, y: previewed.footprint().y, z: 1 }
}

/// The positions at which a build is previewed: a single object at the
/// corner of its box around the start, a line from the start to the
/// pointer, or the rectangle between the two.
pub open spec fn preview_seq(preview: PreviewParent) -> Seq<GridPosition> {
    match preview.previewed.placed_as() {
        BuildMode::Single => seq![
            GridBox::centered(preview.start_position, flat_footprint(preview.previewed)).corner,
        ],
        BuildMode::Line => line_seq(preview.start_position, preview.current_position),
        BuildMode::Rect => rect_positions(preview.start_position, preview.current_position),
    }
}

impl PreviewParent {
    /// A preview of the object at the origin.
    pub fn new(previewed: Buildable) -> (preview: PreviewParent)
        ensures
            preview == (PreviewParent {
                previewed,
                start_position: GridPosition { x: 0, y: 0, z: 0 },
                current_position: GridPosition { x: 0, y: 0, z: 0 },
            }),
    {
        PreviewParent {
            previewed,
            start_position: GridPosition { x: 0, y: 0, z: 0 },
            current_position: GridPosition { x: 0, y: 0, z: 0 },
        }
    }

    /// True when the preview can be laid out: a single object lies on the
    /// grid, and a rectangle has no more cells than can be counted.
    pub open spec fn can_lay_out(self) -> bool {
        match self.previewed.placed_as() {
            BuildMode::Single => GridBox::fits_around(
                self.start_position,
                flat_footprint(self.previewed),
            ),
            BuildMode::Line => true,
            BuildMode::Rect => (distance(self.start_position.x as int, self.current_position.x as int)
                + 1) * (distance(self.start_position.y as int, self.current_position.y as int) + 1)
                <= usize::MAX,
        }
    }

    /// The positions at which the build is previewed.
    pub fn positions(&self) -> (positions: Vec<GridPosition>)
        requires
            self.can_lay_out(),
        ensures
            positions@ == preview_seq(*self),
    {
        match self.previewed.build_mode() {
            BuildMode::Single => {
                // Using the start has the effect of locking the object
                // where the click began.
                let preview_box = GridBox::around(self.start_position, self.previewed.size().flat());
                let mut positions: Vec<GridPosition> = Vec::new();
                positions.push(preview_box.smallest());
                assert(positions@ =~= preview_seq(*self));
                positions
            },
            BuildMode::Line => self.start_position.line_to_2d(self.current_position),
            BuildMode::Rect => {
                let smaller = self.start_position.component_wise_min(self.current_position);
                let larger = self.start_position.component_wise_max(self.current_position);
                let cells = cartesian_cells(smaller.x, larger.x, smaller.y, larger.y);
                let mut positions: Vec<GridPosition> = Vec::new();
                let mut i: usize = 0;
                while i < cells.len()
                    invariant
                        i <= cells.len(),
                        positions@.len() == i,
                        forall|k: int|
                            0 <= k < i ==> #[trigger] positions@[k] == (GridPosition {
                                x: cells@[k].0,
                                y: cells@[k].1,
                                z: self.start_position.z,
                            }),
                    decreases cells.len() - i,
                {
                    positions.push(
                        GridPosition { x: cells[i].0, y: cells[i].1, z: self.start_position.z },
                    );
                    i += 1;
                }
                assert(positions@ =~= preview_seq(*self));
                positions
            },
        }
    }

    /// Takes in what the player does with the pointer.
    ///
    /// While a control of the interface is busy, the start follows the
    /// pointer and nothing is built. Else a release of the button asks for
    /// the build from the start to the pointer, and as long as the button is
    /// not held, the start follows the pointer.
    pub fn interact(&mut self, any_ui_active: bool, just_released: bool, pressed: bool) -> (request:
        Option<BuildRequest>)
        ensures
            final(self).previewed == old(self).previewed,
            final(self).current_position == old(self).current_position,
            final(self).start_position == (if any_ui_active || !pressed {
                old(self).current_position
            } else {
                old(self).start_position
            }),
            request == (if !any_ui_active && just_released {
                Some(
                    BuildRequest {
                        sort: old(self).previewed.sort(),
                        start_position: old(self).start_position,
                        end_position: old(self).current_position,
                        buildable: old(self).previewed,
                    },
                )
            } else {
                None
            }),
    {
        // Probably before the player released the button from clicking a
        // control.
        if any_ui_active {
            self.start_position = self.current_position;
            return None;
        }
        let request = if just_released {
            Some(
                BuildRequest {
                    sort: BuildableType::from(self.previewed),
                    start_position: self.start_position,
                    end_position: self.current_position,
                    buildable: self.previewed,
                },
            )
        } else {
            None
        };
        // Keep start and current identical as long as the button is not
        // held: the start is fixed once the player starts clicking.
        if !pressed {
            self.start_position = self.current_position;
        }
        request
    }
}

} // verus!
