//! Integer grid positions and axis-aligned boxes.

use vstd::prelude::*;
use core::cmp::Ordering;
use vstd::std_specs::cmp::PartialOrdSpecImpl;
use vstd::std_specs::convert::FromSpecImpl;
use vstd::std_specs::ops::{AddSpecImpl, SubSpecImpl};

verus! {

/// A position on the grid. One unit is one tile.
#[derive(Clone, Copy, Debug, PartialEq, Eq, Hash, Structural)]
pub struct GridPosition {
    pub x: i32,
    pub y: i32,
    pub z: i32,
}

/// True when `v` is a value of `i32`.
pub open spec fn fits_i32(v: int) -> bool {
    i32::MIN <= v <= i32::MAX
}

impl GridPosition {
    /// The position with the given coordinates.
    pub open spec fn at(x: int, y: int, z: int) -> GridPosition {
        GridPosition { x: x as i32, y: y as i32, z: z as i32 }
    }

    /// Sum of the coordinates: the distance to negative infinity by which
    /// positions are ordered.
    pub open spec fn diagonal(self) -> int {
        self.x + self.y + self.z
    }

    /// True when all four neighbours on the same level are positions.
    pub open spec fn has_neighbors(self) -> bool {
        i32::MIN < self.x < i32::MAX && i32::MIN < self.y < i32::MAX
    }

    /// True when `other` is one step away along x or y, on the same level.
    pub open spec fn adjacent(self, other: GridPosition) -> bool {
        self.z == other.z && ((self.y == other.y && (self.x - other.x == 1 || other.x - self.x
            == 1)) || (self.x == other.x && (self.y - other.y == 1 || other.y - self.y == 1)))
    }

    /// The position moved by the given steps.
    pub open spec fn shifted(self, dx: int, dy: int, dz: int) -> GridPosition {
        GridPosition::at(self.x + dx, self.y + dy, self.z + dz)
    }

    /// The four neighbours in the order left, right, below, above.
    pub open spec fn neighbor_seq(self) -> Seq<GridPosition> {
        seq![
            self.shifted(-1, 0, 0),
            self.shifted(1, 0, 0),
            self.shifted(0, -1, 0),
            self.shifted(0, 1, 0),
        ]
    }

    pub fn new(x: i32, y: i32, z: i32) -> (position: GridPosition)
        ensures
            position == (GridPosition { x, y, z }),
    {
        GridPosition { x, y, z }
    }

    /// Whether all four neighbours on the same level are positions of the
    /// grid: the position does not lie on the rim of the grid.
    pub fn is_inner(&self) -> (inner: bool)
        ensures
            inner == self.has_neighbors(),
    {
        i32::MIN < self.x && self.x < i32::MAX && i32::MIN < self.y && self.y < i32::MAX
    }

    /// The four axis-aligned neighbours on the same level: left, right,
    /// below, above.
    pub fn neighbors(&self) -> (around: [GridPosition; 4])
        requires
            self.has_neighbors(),
        ensures
            around@ == self.neighbor_seq(),
    {
        let around = [
            GridPosition { x: self.x - 1, y: self.y, z: self.z },
            GridPosition { x: self.x + 1, y: self.y, z: self.z },
            GridPosition { x: self.x, y: self.y - 1, z: self.z },
            GridPosition { x: self.x, y: self.y + 1, z: self.z },
        ];
        assert(around@ =~= self.neighbor_seq());
        around
    }

    /// Sum of the coordinates, wide enough never to overflow.
    pub fn diagonal_sum(&self) -> (sum: i64)
        ensures
            sum == self.diagonal(),
    {
        self.x as i64 + self.y as i64 + self.z as i64
    }

    /// The smaller coordinate on every axis.
    pub fn component_wise_min(self, other: GridPosition) -> (low: GridPosition)
        ensures
            low.x == if self.x <= other.x { self.x } else { other.x },
            low.y == if self.y <= other.y { self.y } else { other.y },
            low.z == if self.z <= other.z { self.z } else { other.z },
    {
        GridPosition {
            x: if self.x <= other.x { self.x } else { other.x },
            y: if self.y <= other.y { self.y } else { other.y },
            z: if self.z <= other.z { self.z } else { other.z },
        }
    }

    /// The larger coordinate on every axis.
    pub fn component_wise_max(self, other: GridPosition) -> (high: GridPosition)
        ensures
            high.x == if self.x >= other.x { self.x } else { other.x },
            high.y == if self.y >= other.y { self.y } else { other.y },
            high.z == if self.z >= other.z { self.z } else { other.z },
    {
        GridPosition {
            x: if self.x >= other.x { self.x } else { other.x },
            y: if self.y >= other.y { self.y } else { other.y },
            z: if self.z >= other.z { self.z } else { other.z },
        }
    }
}

/// Every neighbour is adjacent, and every adjacent position is a neighbour.
pub proof fn lemma_neighbors_are_the_adjacent(p: GridPosition, q: GridPosition)
    requires
        p.has_neighbors(),
    ensures
        p.adjacent(q) <==> p.neighbor_seq().contains(q),
        q.adjacent(p) <==> p.adjacent(q),
{
    let s = p.neighbor_seq();
    if p.adjacent(q) {
        if q.x == p.x - 1 {
            assert(s[0] == q);
        } else if q.x == p.x + 1 {
            assert(s[1] == q);
        } else if q.y == p.y - 1 {
            assert(s[2] == q);
        } else {
            assert(s[3] == q);
        }
    }
    if s.contains(q) {
        let i = choose|i: int| 0 <= i < s.len() && s[i] == q;
        assert(p.adjacent(s[i]));
    }
}

impl Default for GridPosition {
    fn default() -> (origin: GridPosition)
        ensures
            origin == (GridPosition { x: 0, y: 0, z: 0 }),
    {
        GridPosition { x: 0, y: 0, z: 0 }
    }
}

impl From<(i32, i32, i32)> for GridPosition {
    fn from(value: (i32, i32, i32)) -> (position: GridPosition) {
        GridPosition { x: value.0, y: value.1, z: value.2 }
    }
}

impl FromSpecImpl<(i32, i32, i32)> for GridPosition {
    open spec fn obeys_from_spec() -> bool {
        true
    }

    open spec fn from_spec(value: (i32, i32, i32)) -> GridPosition {
        GridPosition { x: value.0, y: value.1, z: value.2 }
    }
}

impl From<(i32, i32)> for GridPosition {
    fn from(value: (i32, i32)) -> (position: GridPosition) {
        GridPosition { x: value.0, y: value.1, z: 0 }
    }
}

impl FromSpecImpl<(i32, i32)> for GridPosition {
    open spec fn obeys_from_spec() -> bool {
        true
    }

    open spec fn from_spec(value: (i32, i32)) -> GridPosition {
        GridPosition { x: value.0, y: value.1, z: 0 }
    }
}

impl core::ops::Add<GridPosition> for GridPosition {
    type Output = GridPosition;

    fn add(self, rhs: GridPosition) -> (sum: GridPosition) {
        GridPosition { x: self.x + rhs.x, y: self.y + rhs.y, z: self.z + rhs.z }
    }
}

impl AddSpecImpl<GridPosition> for GridPosition {
    open spec fn obeys_add_spec() -> bool {
        true
    }

    open spec fn add_req(self, rhs: GridPosition) -> bool {
        fits_i32(self.x + rhs.x) && fits_i32(self.y + rhs.y) && fits_i32(self.z + rhs.z)
    }

    open spec fn add_spec(self, rhs: GridPosition) -> GridPosition {
        self.shifted(rhs.x as int, rhs.y as int, rhs.z as int)
    }
}

impl core::ops::Sub<GridPosition> for GridPosition {
    type Output = GridPosition;

    fn sub(self, rhs: GridPosition) -> (difference: GridPosition) {
        GridPosition { x: self.x - rhs.x, y: self.y - rhs.y, z: self.z - rhs.z }
    }
}

impl SubSpecImpl<GridPosition> for GridPosition {
    open spec fn obeys_sub_spec() -> bool {
        true
    }

    open spec fn sub_req(self, rhs: GridPosition) -> bool {
        fits_i32(self.x - rhs.x) && fits_i32(self.y - rhs.y) && fits_i32(self.z - rhs.z)
    }

    open spec fn sub_spec(self, rhs: GridPosition) -> GridPosition {
        self.shifted(-rhs.x, -rhs.y, -rhs.z)
    }
}

impl core::ops::Add<(i32, i32)> for GridPosition {
    type Output = GridPosition;

    fn add(self, rhs: (i32, i32)) -> (sum: GridPosition) {
        GridPosition { x: self.x + rhs.0, y: self.y + rhs.1, z: self.z }
    }
}

impl AddSpecImpl<(i32, i32)> for GridPosition {
    open spec fn obeys_add_spec() -> bool {
        true
    }

    open spec fn add_req(self, rhs: (i32, i32)) -> bool {
        fits_i32(self.x + rhs.0) && fits_i32(self.y + rhs.1)
    }

    open spec fn add_spec(self, rhs: (i32, i32)) -> GridPosition {
        self.shifted(rhs.0 as int, rhs.1 as int, 0)
    }
}

impl core::ops::Sub<(i32, i32)> for GridPosition {
    type Output = GridPosition;

    fn sub(self, rhs: (i32, i32)) -> (difference: GridPosition) {
        GridPosition { x: self.x - rhs.0, y: self.y - rhs.1, z: self.z }
    }
}

impl SubSpecImpl<(i32, i32)> for GridPosition {
    open spec fn obeys_sub_spec() -> bool {
        true
    }

    open spec fn sub_req(self, rhs: (i32, i32)) -> bool {
        fits_i32(self.x - rhs.0) && fits_i32(self.y - rhs.1)
    }

    open spec fn sub_spec(self, rhs: (i32, i32)) -> GridPosition {
        self.shifted(-rhs.0, -rhs.1, 0)
    }
}

impl core::ops::Add<(i32, i32, i32)> for GridPosition {
    type Output = GridPosition;

    fn add(self, rhs: (i32, i32, i32)) -> (sum: GridPosition) {
        GridPosition { x: self.x + rhs.0, y: self.y + rhs.1, z: self.z + rhs.2 }
    }
}

impl AddSpecImpl<(i32, i32, i32)> for GridPosition {
    open spec fn obeys_add_spec() -> bool {
        true
    }

    open spec fn add_req(self, rhs: (i32, i32, i32)) -> bool {
        fits_i32(self.x + rhs.0) && fits_i32(self.y + rhs.1) && fits_i32(self.z + rhs.2)
    }

    open spec fn add_spec(self, rhs: (i32, i32, i32)) -> GridPosition {
        self.shifted(rhs.0 as int, rhs.1 as int, rhs.2 as int)
    }
}

impl core::ops::Sub<(i32, i32, i32)> for GridPosition {
    type Output = GridPosition;

    fn sub(self, rhs: (i32, i32, i32)) -> (difference: GridPosition) {
        GridPosition { x: self.x - rhs.0, y: self.y - rhs.1, z: self.z - rhs.2 }
    }
}

impl SubSpecImpl<(i32, i32, i32)> for GridPosition {
    open spec fn obeys_sub_spec() -> bool {
        true
    }

    open spec fn sub_req(self, rhs: (i32, i32, i32)) -> bool {
        fits_i32(self.x - rhs.0) && fits_i32(self.y - rhs.1) && fits_i32(self.z - rhs.2)
    }

    open spec fn sub_spec(self, rhs: (i32, i32, i32)) -> GridPosition {
        self.shifted(-rhs.0, -rhs.1, -rhs.2)
    }
}

/// How two sums of coordinates compare, or nothing where they are equal.
pub open spec fn order_by_diagonal(left: int, right: int) -> Option<Ordering> {
    if left < right {
        Some(Ordering::Less)
    } else if left > right {
        Some(Ordering::Greater)
    } else {
        None
    }
}

impl PartialOrd for GridPosition {
    /// Equal positions are equal. Otherwise the one with the smaller sum of
    /// coordinates is less; two different positions with the same sum have no
    /// order.
    fn partial_cmp(&self, other: &GridPosition) -> (order: Option<Ordering>) {
        if self.x == other.x && self.y == other.y && self.z == other.z {
            Some(Ordering::Equal)
        } else {
            let own: i64 = self.diagonal_sum();
            let theirs: i64 = other.diagonal_sum();
            if own < theirs {
                Some(Ordering::Less)
            } else if own > theirs {
                Some(Ordering::Greater)
            } else {
                None
            }
        }
    }
}

impl PartialOrdSpecImpl for GridPosition {
    open spec fn obeys_partial_cmp_spec() -> bool {
        true
    }

    open spec fn partial_cmp_spec(&self, other: &GridPosition) -> Option<Ordering> {
        if *self == *other {
            Some(Ordering::Equal)
        } else {
            order_by_diagonal(self.diagonal(), other.diagonal())
        }
    }
}


} // verus!
