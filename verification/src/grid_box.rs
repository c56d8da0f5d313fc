//! Box extents and axis-aligned boxes on the grid.

use crate::geometry::{fits_i32, order_by_diagonal, GridPosition};
use itertools::Itertools;
use vstd::prelude::*;
use core::cmp::Ordering;
use vstd::std_specs::cmp::PartialOrdSpecImpl;
use vstd::std_specs::convert::FromSpecImpl;
use vstd::std_specs::ops::DivSpecImpl;

verus! {

/// How far a box reaches from its own corner along each axis.
#[derive(Clone, Copy, Debug, PartialEq, Eq, Structural)]
pub struct BoundingBox {
    pub x: u32,
    pub y: u32,
    pub z: u32,
}

/// The signed reading of an unsigned extent: values above `i32::MAX` wrap
/// around to the negative numbers.
pub open spec fn wrapped_i32(v: u32) -> i32 {
    if v <= i32::MAX {
        v as i32
    } else {
        (v - 0x1_0000_0000) as i32
    }
}

/// Reads an unsigned extent as a signed one, wrapping above `i32::MAX`.
pub fn wrap_to_i32(v: u32) -> (w: i32)
    ensures
        w == wrapped_i32(v),
{
    if v <= 0x7fff_ffff {
        v as i32
    } else {
        (v - 0x8000_0000) as i32 + i32::MIN
    }
}

/// Anything that can say how far it reaches along the three axes, as signed
/// steps.
pub trait Extent {
    /// The three signed steps.
    spec fn steps(&self) -> (i32, i32, i32);

    fn as_ivec3(&self) -> (v: (i32, i32, i32))
        ensures
            v == self.steps(),
    ;
}

impl Extent for (i32, i32, i32) {
    open spec fn steps(&self) -> (i32, i32, i32) {
        *self
    }

    fn as_ivec3(&self) -> (v: (i32, i32, i32)) {
        *self
    }
}

impl Extent for (u32, u32, u32) {
    open spec fn steps(&self) -> (i32, i32, i32) {
        (wrapped_i32(self.0), wrapped_i32(self.1), wrapped_i32(self.2))
    }

    fn as_ivec3(&self) -> (v: (i32, i32, i32)) {
        (wrap_to_i32(self.0), wrap_to_i32(self.1), wrap_to_i32(self.2))
    }
}

impl Extent for BoundingBox {
    open spec fn steps(&self) -> (i32, i32, i32) {
        (wrapped_i32(self.x), wrapped_i32(self.y), wrapped_i32(self.z))
    }

    fn as_ivec3(&self) -> (v: (i32, i32, i32)) {
        (wrap_to_i32(self.x), wrap_to_i32(self.y), wrap_to_i32(self.z))
    }
}

impl BoundingBox {
    pub fn height(&self) -> (h: u32)
        ensures
            h == self.z,
    {
        self.z
    }

    /// The same footprint with another height.
    pub fn with_height(self, new_height: u32) -> (resized: BoundingBox)
        ensures
            resized == (BoundingBox { x: self.x, y: self.y, z: new_height }),
    {
        BoundingBox { x: self.x, y: self.y, z: new_height }
    }

    /// The box with the extents given as constants.
    pub fn fixed<const X: u32, const Y: u32, const Z: u32>() -> (extents: BoundingBox)
        ensures
            extents == (BoundingBox { x: X, y: Y, z: Z }),
    {
        BoundingBox { x: X, y: Y, z: Z }
    }

    /// The same footprint, one level high.
    pub fn flat(self) -> (flattened: BoundingBox)
        ensures
            flattened == (BoundingBox { x: self.x, y: self.y, z: 1 }),
    {
        self.with_height(1)
    }
}

impl Default for BoundingBox {
    fn default() -> (extents: BoundingBox)
        ensures
            extents == (BoundingBox { x: 0, y: 0, z: 0 }),
    {
        BoundingBox { x: 0, y: 0, z: 0 }
    }
}

impl From<(u32, u32)> for BoundingBox {
    fn from(value: (u32, u32)) -> (extents: BoundingBox) {
        BoundingBox { x: value.0, y: value.1, z: 0 }
    }
}

impl FromSpecImpl<(u32, u32)> for BoundingBox {
    open spec fn obeys_from_spec() -> bool {
        true
    }

    open spec fn from_spec(value: (u32, u32)) -> BoundingBox {
        BoundingBox { x: value.0, y: value.1, z: 0 }
    }
}

impl From<(u32, u32, u32)> for BoundingBox {
    fn from(value: (u32, u32, u32)) -> (extents: BoundingBox) {
        BoundingBox { x: value.0, y: value.1, z: value.2 }
    }
}

impl FromSpecImpl<(u32, u32, u32)> for BoundingBox {
    open spec fn obeys_from_spec() -> bool {
        true
    }

    open spec fn from_spec(value: (u32, u32, u32)) -> BoundingBox {
        BoundingBox { x: value.0, y: value.1, z: value.2 }
    }
}

impl core::ops::Div<u32> for BoundingBox {
    type Output = (u32, u32, u32);

    fn div(self, rhs: u32) -> (parts: (u32, u32, u32)) {
        (self.x / rhs, self.y / rhs, self.z / rhs)
    }
}

impl DivSpecImpl<u32> for BoundingBox {
    open spec fn obeys_div_spec() -> bool {
        true
    }

    open spec fn div_req(self, rhs: u32) -> bool {
        rhs != 0
    }

    open spec fn div_spec(self, rhs: u32) -> (u32, u32, u32) {
        (self.x / rhs, self.y / rhs, self.z / rhs)
    }
}

/// The cells of the rectangle from `(x0, y0)` to `(x1, y1)`, both corners
/// included, column by column: all of the first `x`, then the next.
pub open spec fn rect_cells(x0: int, x1: int, y0: int, y1: int) -> Seq<(i32, i32)> {
    if x0 <= x1 && y0 <= y1 {
        Seq::new(
            ((x1 - x0 + 1) * (y1 - y0 + 1)) as nat,
            |i: int| ((x0 + i / (y1 - y0 + 1)) as i32, (y0 + i % (y1 - y0 + 1)) as i32),
        )
    } else {
        Seq::empty()
    }
}

/// Calls `itertools::Itertools::cartesian_product` on the two inclusive
/// ranges and collects the pairs. The product walks the second range once
/// for every item of the first, so the pairs come out ordered by `x`, then
/// by `y`; an empty range gives no pairs.
#[verifier::external_body]
pub(crate) fn cartesian_cells(x0: i32, x1: i32, y0: i32, y1: i32) -> (cells: Vec<(i32, i32)>)
    requires
        x0 <= x1 && y0 <= y1 ==> (x1 - x0 + 1) * (y1 - y0 + 1) <= usize::MAX,
    ensures
        cells@ == rect_cells(x0 as int, x1 as int, y0 as int, y1 as int),
{
    (x0..=x1).cartesian_product(y0..=y1).collect()
}

/// An axis-aligned box on the grid: its smallest corner and how far it
/// reaches from there. The far corner belongs to the box.
#[derive(Clone, Copy, Debug, PartialEq, Eq, Structural)]
pub struct GridBox {
    /// The corner with the smallest coordinate on every axis.
    pub corner: GridPosition,
    /// How far the box reaches from the corner; the far corner is
    /// `corner + extents`.
    pub extents: BoundingBox,
}

/// The smaller of two coordinates.
pub open spec fn lesser(a: int, b: int) -> int {
    if a <= b {
        a
    } else {
        b
    }
}

/// The larger of two coordinates.
pub open spec fn greater(a: int, b: int) -> int {
    if a >= b {
        a
    } else {
        b
    }
}

/// The distance between two coordinates of the grid, which always fits.
fn span(low: i32, high: i32) -> (distance: u32)
    requires
        low <= high,
    ensures
        distance == high - low,
{
    (high as i64 - low as i64) as u32
}

/// A coordinate moved by an unsigned distance.
fn advance(start: i32, distance: u32) -> (end: i32)
    requires
        start + distance <= i32::MAX,
    ensures
        end == start + distance,
{
    (start as i64 + distance as i64) as i32
}

impl GridBox {
    /// True when the far corner is a position of the grid.
    pub open spec fn wf(self) -> bool {
        &&& self.corner.x + self.extents.x <= i32::MAX
        &&& self.corner.y + self.extents.y <= i32::MAX
        &&& self.corner.z + self.extents.z <= i32::MAX
    }

    /// The far corner, which belongs to the box.
    pub open spec fn far_corner(self) -> GridPosition {
        self.corner.shifted(self.extents.x as int, self.extents.y as int, self.extents.z as int)
    }

    /// The box that two opposite corners span.
    pub open spec fn spanning(first: GridPosition, second: GridPosition) -> GridBox {
        GridBox::of(
            GridPosition::at(
                lesser(first.x as int, second.x as int),
                lesser(first.y as int, second.y as int),
                lesser(first.z as int, second.z as int),
            ),
            BoundingBox {
                x: (greater(first.x as int, second.x as int) - lesser(
                    first.x as int,
                    second.x as int,
                )) as u32,
                y: (greater(first.y as int, second.y as int) - lesser(
                    first.y as int,
                    second.y as int,
                )) as u32,
                z: (greater(first.z as int, second.z as int) - lesser(
                    first.z as int,
                    second.z as int,
                )) as u32,
            },
        )
    }

    /// True when the box of the given extents around `center` lies on the
    /// grid.
    pub open spec fn fits_around(center: GridPosition, extents: BoundingBox) -> bool {
        &&& fits_i32(center.x - extents.x / 2)
        &&& fits_i32(center.y - extents.y / 2)
        &&& fits_i32(center.z - extents.z / 2)
        &&& fits_i32(center.x - extents.x / 2 + extents.x - 1)
        &&& fits_i32(center.y - extents.y / 2 + extents.y - 1)
        &&& fits_i32(center.z - extents.z / 2 + extents.z - 1)
    }

    /// The box of the given extents around `center`: it starts half the
    /// extents (rounded down) before the centre.
    pub open spec fn centered(center: GridPosition, extents: BoundingBox) -> GridBox {
        GridBox::spanning(
            center.shifted(-(extents.x / 2), -(extents.y / 2), -(extents.z / 2)),
            center.shifted(
                -(extents.x / 2) + extents.x - 1,
                -(extents.y / 2) + extents.y - 1,
                -(extents.z / 2) + extents.z - 1,
            ),
        )
    }

    /// Whether the box of the given extents around `center` lies on the
    /// grid.
    pub fn can_center(center: GridPosition, extents: BoundingBox) -> (fits: bool)
        ensures
            fits == GridBox::fits_around(center, extents),
    {
        let x0: i64 = center.x as i64 - (extents.x / 2) as i64;
        let y0: i64 = center.y as i64 - (extents.y / 2) as i64;
        let z0: i64 = center.z as i64 - (extents.z / 2) as i64;
        let x1: i64 = x0 + extents.x as i64 - 1;
        let y1: i64 = y0 + extents.y as i64 - 1;
        let z1: i64 = z0 + extents.z as i64 - 1;
        let low: i64 = i32::MIN as i64;
        let high: i64 = i32::MAX as i64;
        low <= x0 && x0 <= high && low <= y0 && y0 <= high && low <= z0 && z0 <= high && low <= x1
            && x1 <= high && low <= y1 && y1 <= high && low <= z1 && z1 <= high
    }

    /// The box with the given corner and extents.
    pub open spec fn of(corner: GridPosition, extents: BoundingBox) -> GridBox {
        GridBox { corner, extents }
    }

    /// True when the position lies on the lowest level of the box.
    pub open spec fn on_floor(self, p: GridPosition) -> bool {
        &&& p.z == self.corner.z
        &&& self.corner.x <= p.x <= self.corner.x + self.extents.x
        &&& self.corner.y <= p.y <= self.corner.y + self.extents.y
    }

    /// The positions of the lowest level, column by column.
    pub open spec fn floor_seq(self) -> Seq<GridPosition> {
        Seq::new(
            ((self.extents.x + 1) * (self.extents.y + 1)) as nat,
            |i: int|
                GridPosition::at(
                    self.corner.x + i / (self.extents.y + 1),
                    self.corner.y + i % (self.extents.y + 1),
                    self.corner.z as int,
                ),
        )
    }

    /// True when the two boxes share a position of the grid.
    pub open spec fn overlaps(self, other: GridBox) -> bool {
        &&& self.overlaps_2d(other)
        &&& self.corner.z <= other.corner.z + other.extents.z
        &&& other.corner.z <= self.corner.z + self.extents.z
    }

    /// True when the footprints of the two boxes share a cell.
    pub open spec fn overlaps_2d(self, other: GridBox) -> bool {
        &&& self.corner.x <= other.corner.x + other.extents.x
        &&& other.corner.x <= self.corner.x + self.extents.x
        &&& self.corner.y <= other.corner.y + other.extents.y
        &&& other.corner.y <= self.corner.y + self.extents.y
    }

    /// The box that starts at `position` and covers `extents` cells along
    /// each axis. Extents may be negative or zero: the box is the one that
    /// `position` and the cell one step before the far end span.
    pub fn new<T: Extent>(position: GridPosition, extents: T) -> (grid_box: GridBox)
        requires
            fits_i32(position.x + extents.steps().0 - 1),
            fits_i32(position.y + extents.steps().1 - 1),
            fits_i32(position.z + extents.steps().2 - 1),
        ensures
            grid_box == GridBox::spanning(
                position,
                position.shifted(
                    extents.steps().0 - 1,
                    extents.steps().1 - 1,
                    extents.steps().2 - 1,
                ),
            ),
            grid_box.wf(),
    {
        let steps = extents.as_ivec3();
        let second = GridPosition {
            x: (position.x as i64 + steps.0 as i64 - 1) as i32,
            y: (position.y as i64 + steps.1 as i64 - 1) as i32,
            z: (position.z as i64 + steps.2 as i64 - 1) as i32,
        };
        GridBox::from_corners(position, second)
    }

    /// The box of the given extents with `center` in its middle: it starts
    /// half the extents (rounded down) before the centre.
    pub fn around(center: GridPosition, extents: BoundingBox) -> (grid_box: GridBox)
        requires
            GridBox::fits_around(center, extents),
        ensures
            grid_box == GridBox::centered(center, extents),
            grid_box.wf(),
    {
        let first = GridPosition {
            x: (center.x as i64 - (extents.x / 2) as i64) as i32,
            y: (center.y as i64 - (extents.y / 2) as i64) as i32,
            z: (center.z as i64 - (extents.z / 2) as i64) as i32,
        };
        let second = GridPosition {
            x: (first.x as i64 + extents.x as i64 - 1) as i32,
            y: (first.y as i64 + extents.y as i64 - 1) as i32,
            z: (first.z as i64 + extents.z as i64 - 1) as i32,
        };
        GridBox::from_corners(first, second)
    }

    /// The box that two opposite corners span, whichever two they are.
    pub fn from_corners(first_corner: GridPosition, second_corner: GridPosition) -> (grid_box:
        GridBox)
        ensures
            grid_box == GridBox::spanning(first_corner, second_corner),
            grid_box.wf(),
    {
        let smallest = first_corner.component_wise_min(second_corner);
        let largest = first_corner.component_wise_max(second_corner);
        GridBox {
            corner: smallest,
            extents: BoundingBox {
                x: span(smallest.x, largest.x),
                y: span(smallest.y, largest.y),
                z: span(smallest.z, largest.z),
            },
        }
    }

    /// Whether the far corner is a position of the grid.
    pub fn is_on_grid(&self) -> (valid: bool)
        ensures
            valid == self.wf(),
    {
        self.corner.x as i64 + self.extents.x as i64 <= i32::MAX as i64 && self.corner.y as i64
            + self.extents.y as i64 <= i32::MAX as i64 && self.corner.z as i64
            + self.extents.z as i64 <= i32::MAX as i64
    }

    /// The box with exactly this corner and these extents.
    pub fn from_raw(corner: GridPosition, extents: BoundingBox) -> (grid_box: GridBox)
        ensures
            grid_box == GridBox::of(corner, extents),
    {
        GridBox { corner, extents }
    }

    pub fn smallest(&self) -> (corner: GridPosition)
        ensures
            corner == self.corner,
    {
        self.corner
    }

    /// The far corner, which belongs to the box.
    pub fn largest(&self) -> (corner: GridPosition)
        requires
            self.wf(),
        ensures
            corner == self.far_corner(),
    {
        GridPosition {
            x: advance(self.corner.x, self.extents.x),
            y: advance(self.corner.y, self.extents.y),
            z: advance(self.corner.z, self.extents.z),
        }
    }

    /// The position half the extents (rounded down) from the corner.
    pub fn center(&self) -> (middle: GridPosition)
        requires
            self.wf(),
        ensures
            middle == self.corner.shifted(
                (self.extents.x / 2) as int,
                (self.extents.y / 2) as int,
                (self.extents.z / 2) as int,
            ),
    {
        GridPosition {
            x: advance(self.corner.x, self.extents.x / 2),
            y: advance(self.corner.y, self.extents.y / 2),
            z: advance(self.corner.z, self.extents.z / 2),
        }
    }

    pub fn extents(&self) -> (extents: BoundingBox)
        ensures
            extents == self.extents,
    {
        self.extents
    }

    /// All positions on the lowest level of the box, column by column.
    pub fn floor_positions(&self) -> (floor: Vec<GridPosition>)
        requires
            self.wf(),
            (self.extents.x + 1) * (self.extents.y + 1) <= usize::MAX,
        ensures
            floor@ == self.floor_seq(),
    {
        let far = self.largest();
        let cells = cartesian_cells(self.corner.x, far.x, self.corner.y, far.y);
        let mut floor: Vec<GridPosition> = Vec::new();
        let mut i: usize = 0;
        while i < cells.len()
            invariant
                self.wf(),
                i <= cells.len(),
                cells@ == rect_cells(
                    self.corner.x as int,
                    self.corner.x + self.extents.x,
                    self.corner.y as int,
                    self.corner.y + self.extents.y,
                ),
                floor@.len() == i,
                forall|k: int| 0 <= k < i ==> #[trigger] floor@[k] == self.floor_seq()[k],
            decreases cells.len() - i,
        {
            let (x, y) = cells[i];
            floor.push(GridPosition { x, y, z: self.corner.z });
            i += 1;
        }
        assert(floor@ =~= self.floor_seq());
        floor
    }

    /// Grows or shrinks the extents by `delta`. Where an extent would turn
    /// negative, the box is the one that the corner and the cell one step
    /// before the new far end span.
    pub fn enlargen(&mut self, delta: (i32, i32, i32))
        requires
            old(self).extents.x <= i32::MAX,
            old(self).extents.y <= i32::MAX,
            old(self).extents.z <= i32::MAX,
            fits_i32(old(self).extents.x + delta.0),
            fits_i32(old(self).extents.y + delta.1),
            fits_i32(old(self).extents.z + delta.2),
            fits_i32(old(self).corner.x + old(self).extents.x + delta.0),
            fits_i32(old(self).corner.y + old(self).extents.y + delta.1),
            fits_i32(old(self).corner.z + old(self).extents.z + delta.2),
            fits_i32(old(self).corner.x + old(self).extents.x + delta.0 - 1),
            fits_i32(old(self).corner.y + old(self).extents.y + delta.1 - 1),
            fits_i32(old(self).corner.z + old(self).extents.z + delta.2 - 1),
        ensures
            final(self).wf(),
            old(self).extents.x + delta.0 >= 0 && old(self).extents.y + delta.1 >= 0 && old(
                self,
            ).extents.z + delta.2 >= 0 ==> *final(self) == GridBox::of(
                old(self).corner,
                BoundingBox {
                    x: (old(self).extents.x + delta.0) as u32,
                    y: (old(self).extents.y + delta.1) as u32,
                    z: (old(self).extents.z + delta.2) as u32,
                },
            ),
            old(self).extents.x + delta.0 < 0 || old(self).extents.y + delta.1 < 0 || old(
                self,
            ).extents.z + delta.2 < 0 ==> *final(self) == GridBox::spanning(
                old(self).corner,
                old(self).corner.shifted(
                    old(self).extents.x + delta.0 - 1,
                    old(self).extents.y + delta.1 - 1,
                    old(self).extents.z + delta.2 - 1,
                ),
            ),
    {
        let grown: (i32, i32, i32) = (
            self.extents.x as i32 + delta.0,
            self.extents.y as i32 + delta.1,
            self.extents.z as i32 + delta.2,
        );
        if grown.0 < 0 || grown.1 < 0 || grown.2 < 0 {
            *self = GridBox::new(self.corner, grown);
        } else {
            self.extents = BoundingBox { x: grown.0 as u32, y: grown.1 as u32, z: grown.2 as u32 };
        }
    }

    /// Whether the two boxes share a position: on every axis each box
    /// starts no later than the other ends.
    pub fn intersects(&self, other: GridBox) -> (hit: bool)
        ensures
            hit == self.overlaps(other),
    {
        self.intersects_2d(other) && self.corner.z as i64 <= other.corner.z as i64
            + other.extents.z as i64 && other.corner.z as i64 <= self.corner.z as i64
            + self.extents.z as i64
    }

    /// Whether the footprints of the two boxes share a cell, whatever their
    /// levels.
    pub fn intersects_2d(&self, other: GridBox) -> (hit: bool)
        ensures
            hit == self.overlaps_2d(other),
    {
        self.corner.x as i64 <= other.corner.x as i64 + other.extents.x as i64
            && other.corner.x as i64 <= self.corner.x as i64 + self.extents.x as i64
            && self.corner.y as i64 <= other.corner.y as i64 + other.extents.y as i64
            && other.corner.y as i64 <= self.corner.y as i64 + self.extents.y as i64
    }
}

/// A position is on the floor of a box exactly when the floor sequence
/// holds it, and the sequence holds no position twice.
pub proof fn lemma_floor_seq(b: GridBox, p: GridPosition)
    requires
        b.wf(),
    ensures
        b.floor_seq().contains(p) <==> b.on_floor(p),
        b.floor_seq().no_duplicates(),
{
    let h = b.extents.y + 1;
    let w = b.extents.x + 1;
    let s = b.floor_seq();
    assert(s.len() == w * h);
    if s.contains(p) {
        let i = choose|i: int| 0 <= i < s.len() && s[i] == p;
        lemma_cell_index(i, w, h);
    }
    if b.on_floor(p) {
        let i = (p.x - b.corner.x) * h + (p.y - b.corner.y);
        lemma_cell_of(p.x - b.corner.x, p.y - b.corner.y, w, h);
        assert(s[i] == p);
    }
    assert forall|i: int, j: int| 0 <= i < s.len() && 0 <= j < s.len() && i != j implies s[i]
        != s[j] by {
        lemma_cell_index(i, w, h);
        lemma_cell_index(j, w, h);
        if i / h == j / h && i % h == j % h {
            vstd::arithmetic::div_mod::lemma_fundamental_div_mod(i, h);
            vstd::arithmetic::div_mod::lemma_fundamental_div_mod(j, h);
        }
    }
}

/// The column and row of the cell with index `i` lie inside the rectangle.
proof fn lemma_cell_index(i: int, w: int, h: int)
    requires
        w > 0,
        h > 0,
        0 <= i < w * h,
    ensures
        0 <= i / h < w,
        0 <= i % h < h,
{
    vstd::arithmetic::div_mod::lemma_fundamental_div_mod(i, h);
    vstd::arithmetic::div_mod::lemma_mod_bound(i, h);
    vstd::arithmetic::div_mod::lemma_div_pos_is_pos(i, h);
    if i / h >= w {
        assert(h * (i / h) >= h * w) by (nonlinear_arith)
            requires
                i / h >= w,
                h > 0,
        ;
        assert(h * w == w * h) by (nonlinear_arith);
    }
}

/// The cell in column `a` and row `b` has index `a * h + b`.
proof fn lemma_cell_of(a: int, b: int, w: int, h: int)
    requires
        0 <= a < w,
        0 <= b < h,
    ensures
        0 <= a * h + b < w * h,
        (a * h + b) / h == a,
        (a * h + b) % h == b,
{
    assert(a * h + b < w * h) by (nonlinear_arith)
        requires
            0 <= a < w,
            0 <= b < h,
    ;
    assert(0 <= a * h + b) by (nonlinear_arith)
        requires
            0 <= a,
            0 <= b,
            h > 0,
    ;
    vstd::arithmetic::div_mod::lemma_fundamental_div_mod_converse(a * h + b, h, a, b);
}

impl Default for GridBox {
    fn default() -> (grid_box: GridBox)
        ensures
            grid_box == GridBox::of(
                GridPosition { x: 0, y: 0, z: 0 },
                BoundingBox { x: 0, y: 0, z: 0 },
            ),
    {
        GridBox {
            corner: GridPosition { x: 0, y: 0, z: 0 },
            extents: BoundingBox { x: 0, y: 0, z: 0 },
        }
    }
}

impl From<GridPosition> for GridBox {
    fn from(value: GridPosition) -> (grid_box: GridBox) {
        GridBox { corner: value, extents: BoundingBox { x: 0, y: 0, z: 0 } }
    }
}

impl FromSpecImpl<GridPosition> for GridBox {
    open spec fn obeys_from_spec() -> bool {
        true
    }

    open spec fn from_spec(value: GridPosition) -> GridBox {
        GridBox::of(value, BoundingBox { x: 0, y: 0, z: 0 })
    }
}

impl BoundingBox {
    /// Sum of the three extents.
    pub open spec fn diagonal(self) -> int {
        self.x + self.y + self.z
    }

    /// Sum of the three extents, wide enough never to overflow.
    pub fn diagonal_sum(&self) -> (sum: i64)
        ensures
            sum == self.diagonal(),
    {
        self.x as i64 + self.y as i64 + self.z as i64
    }
}

impl PartialOrd for GridBox {
    /// Boxes are ordered by their corners; two boxes with the same corner by
    /// the sum of their extents, so that the smaller box is less. Different
    /// extents with the same sum have no order.
    fn partial_cmp(&self, other: &GridBox) -> (order: Option<Ordering>) {
        match self.corner.partial_cmp(&other.corner) {
            Some(Ordering::Equal) => {
                if self.extents.x == other.extents.x && self.extents.y == other.extents.y
                    && self.extents.z == other.extents.z {
                    Some(Ordering::Equal)
                } else {
                    let own: i64 = self.extents.diagonal_sum();
                    let theirs: i64 = other.extents.diagonal_sum();
                    if own < theirs {
                        Some(Ordering::Less)
                    } else if own > theirs {
                        Some(Ordering::Greater)
                    } else {
                        None
                    }
                }
            },
            order => order,
        }
    }
}

impl PartialOrdSpecImpl for GridBox {
    open spec fn obeys_partial_cmp_spec() -> bool {
        true
    }

    open spec fn partial_cmp_spec(&self, other: &GridBox) -> Option<Ordering> {
        if self.corner != other.corner {
            order_by_diagonal(self.corner.diagonal(), other.corner.diagonal())
        } else if self.extents == other.extents {
            Some(Ordering::Equal)
        } else {
            order_by_diagonal(self.extents.diagonal(), other.extents.diagonal())
        }
    }
}


} // verus!
