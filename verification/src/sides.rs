//! The four sides of a tile, as a set.

use vstd::prelude::*;
use vstd::std_specs::ops::{BitAndSpecImpl, BitXorSpecImpl};

verus! {

/// A set of sides of a tile: one bit each for top, right, bottom and left.
#[derive(Debug, Clone, Copy, PartialEq, Eq, Structural)]
pub struct Sides(pub u8);

pub const TOP_BIT: u8 = 0b0001;

pub const RIGHT_BIT: u8 = 0b0010;

pub const BOTTOM_BIT: u8 = 0b0100;

pub const LEFT_BIT: u8 = 0b1000;

impl Sides {
    /// The bottom side alone.
    pub fn bottom() -> (side: Sides)
        ensures
            side == Sides(BOTTOM_BIT),
    {
        Sides(BOTTOM_BIT)
    }

    /// The left side alone.
    pub fn left() -> (side: Sides)
        ensures
            side == Sides(LEFT_BIT),
    {
        Sides(LEFT_BIT)
    }

    /// The right side alone.
    pub fn right() -> (side: Sides)
        ensures
            side == Sides(RIGHT_BIT),
    {
        Sides(RIGHT_BIT)
    }

    /// The top side alone.
    pub fn top() -> (side: Sides)
        ensures
            side == Sides(TOP_BIT),
    {
        Sides(TOP_BIT)
    }

    /// The bits of the set.
    pub open spec fn bits(self) -> u8 {
        self.0
    }

    /// True when the two sets share a side.
    pub open spec fn shares(self, side: Sides) -> bool {
        side.0 & self.0 != 0
    }

    /// True when the set is exactly one of the four sides.
    pub open spec fn is_single(self) -> bool {
        self.0 == TOP_BIT || self.0 == RIGHT_BIT || self.0 == BOTTOM_BIT || self.0 == LEFT_BIT
    }

    /// The single sides of the set, in the order bottom, left, top, right.
    pub open spec fn members(self) -> Seq<Sides> {
        (if self.shares(Sides(BOTTOM_BIT)) {
            seq![Sides(BOTTOM_BIT)]
        } else {
            Seq::empty()
        }) + (if self.shares(Sides(LEFT_BIT)) {
            seq![Sides(LEFT_BIT)]
        } else {
            Seq::empty()
        }) + (if self.shares(Sides(TOP_BIT)) {
            seq![Sides(TOP_BIT)]
        } else {
            Seq::empty()
        }) + (if self.shares(Sides(RIGHT_BIT)) {
            seq![Sides(RIGHT_BIT)]
        } else {
            Seq::empty()
        })
    }

    /// Whether the two sets share a side.
    pub fn has_side(self, side: Sides) -> (shared: bool)
        ensures
            shared == self.shares(side),
    {
        (side.0 & self.0) > 0
    }

    /// The single sides of the set, in the order bottom, left, top, right.
    pub fn iter(self) -> (singles: Vec<Sides>)
        ensures
            singles@ == self.members(),
    {
        let mut singles: Vec<Sides> = Vec::new();
        if self.has_side(Sides(BOTTOM_BIT)) {
            singles.push(Sides(BOTTOM_BIT));
        }
        if self.has_side(Sides(LEFT_BIT)) {
            singles.push(Sides(LEFT_BIT));
        }
        if self.has_side(Sides(TOP_BIT)) {
            singles.push(Sides(TOP_BIT));
        }
        if self.has_side(Sides(RIGHT_BIT)) {
            singles.push(Sides(RIGHT_BIT));
        }
        assert(singles@ =~= self.members());
        singles
    }

    /// All four sides.
    pub fn all() -> (sides: Sides)
        ensures
            sides == Sides(0b1111),
    {
        Sides(0b1111)
    }

    /// The place of a single side in a strip of border sprites: top, right,
    /// left, bottom.
    pub fn to_sprite_index(self) -> (index: usize)
        requires
            self.is_single(),
        ensures
            index == (if self.0 == TOP_BIT {
                0usize
            } else if self.0 == RIGHT_BIT {
                1usize
            } else if self.0 == LEFT_BIT {
                2usize
            } else {
                3usize
            }),
    {
        if self.0 == TOP_BIT {
            0
        } else if self.0 == RIGHT_BIT {
            1
        } else if self.0 == LEFT_BIT {
            2
        } else {
            3
        }
    }
}

impl core::ops::BitAnd<Sides> for Sides {
    type Output = Sides;

    fn bitand(self, rhs: Sides) -> (both: Sides) {
        Sides(self.0 & rhs.0)
    }
}

impl BitAndSpecImpl<Sides> for Sides {
    open spec fn obeys_bitand_spec() -> bool {
        true
    }

    open spec fn bitand_req(self, rhs: Sides) -> bool {
        true
    }

    open spec fn bitand_spec(self, rhs: Sides) -> Sides {
        Sides(self.0 & rhs.0)
    }
}

impl core::ops::BitXor<Sides> for Sides {
    type Output = Sides;

    fn bitxor(self, rhs: Sides) -> (either: Sides) {
        Sides(self.0 ^ rhs.0)
    }
}

impl BitXorSpecImpl<Sides> for Sides {
    open spec fn obeys_bitxor_spec() -> bool {
        true
    }

    open spec fn bitxor_req(self, rhs: Sides) -> bool {
        true
    }

    open spec fn bitxor_spec(self, rhs: Sides) -> Sides {
        Sides(self.0 ^ rhs.0)
    }
}

impl core::ops::BitXorAssign<Sides> for Sides {
    fn bitxor_assign(&mut self, rhs: Sides)
        ensures
            *final(self) == Sides(old(self).0 ^ rhs.0),
    {
        self.0 = self.0 ^ rhs.0;
    }
}

} // verus!
