//! Who may walk or drive over a tile.

use core::cmp::Ordering;
use vstd::prelude::*;
use vstd::std_specs::cmp::PartialOrdSpecImpl;

verus! {

/// The groups of actors that find their way over the ground. Whatever
/// vehicles can use, people can use too.
#[derive(Clone, Copy, Debug, PartialEq, Eq, Structural)]
pub enum NavCategory {
    Nobody,
    People,
    Vehicles,
}

impl NavCategory {
    /// The place of the category in the chain from nobody to vehicles.
    pub open spec fn rank(self) -> int {
        match self {
            NavCategory::Nobody => 0,
            NavCategory::People => 1,
            NavCategory::Vehicles => 2,
        }
    }

    /// True when ground that `self` asks for is there for `ground`: the
    /// ground is open to at least this category.
    pub open spec fn within(self, ground: NavCategory) -> bool {
        self.rank() <= ground.rank()
    }

    fn rank_number(&self) -> (rank: u8)
        ensures
            rank == self.rank(),
    {
        match self {
            NavCategory::Nobody => 0,
            NavCategory::People => 1,
            NavCategory::Vehicles => 2,
        }
    }
}

impl Default for NavCategory {
    fn default() -> (category: NavCategory)
        ensures
            category == NavCategory::People,
    {
        NavCategory::People
    }
}

impl PartialOrd for NavCategory {
    /// Nobody comes before people, and people before vehicles.
    fn partial_cmp(&self, other: &NavCategory) -> (order: Option<Ordering>) {
        let own: u8 = self.rank_number();
        let theirs: u8 = other.rank_number();
        if own < theirs {
            Some(Ordering::Less)
        } else if own > theirs {
            Some(Ordering::Greater)
        } else {
            Some(Ordering::Equal)
        }
    }
}

impl PartialOrdSpecImpl for NavCategory {
    open spec fn obeys_partial_cmp_spec() -> bool {
        true
    }

    open spec fn partial_cmp_spec(&self, other: &NavCategory) -> Option<Ordering> {
        if self.rank() < other.rank() {
            Some(Ordering::Less)
        } else if self.rank() > other.rank() {
            Some(Ordering::Greater)
        } else {
            Some(Ordering::Equal)
        }
    }
}

/// Whether ground open to `ground` belongs to the mesh of `category`.
pub fn belongs_in_mesh(category: NavCategory, ground: NavCategory) -> (belongs: bool)
    ensures
        belongs == category.within(ground),
{
    category <= ground
}

} // verus!
